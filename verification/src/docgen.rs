use vstd::prelude::*;
use crate::syntax::ast::{FnDecl, FnKind, Program, TopDecl};
use crate::text::{concat_str, owned};

verus! {

/// How a function's kind is written.
pub open spec fn kind_name(k: FnKind) -> Seq<char> {
    match k {
        FnKind::User => "User"@,
        FnKind::Update => "Update"@,
        FnKind::Query => "Query"@,
    }
}

/// The list item of one top-level declaration.
pub open spec fn decl_line(d: TopDecl) -> Seq<char> {
    match d {
        TopDecl::Type(td) => "- **Type**: "@ + td.name@ + "\n"@,
        TopDecl::Function(fd) => "- **Function**: "@ + fd.name@ + " ("@ + kind_name(fd.kind) + ")\n"@,
    }
}

pub open spec fn decl_lines(ds: Seq<TopDecl>) -> Seq<char>
    decreases ds.len(),
{
    if ds.len() == 0 {
        seq![]
    } else {
        decl_lines(ds.drop_last()) + decl_line(ds.last())
    }
}

/// The Markdown document of a program: a title, then one list item per top-level
/// declaration, in source order.
pub open spec fn markdown_of(ds: Seq<TopDecl>) -> Seq<char> {
    "# cino Specification\n\n"@ + "## Top-level Declarations\n\n"@ + decl_lines(ds)
}

/// The document tells function kinds apart: the documents of two declarations that differ only
/// in their function's kind differ, and a plain function is documented as `User`, the name its
/// kind is printed with.
pub proof fn lemma_kinds_documented(fd: FnDecl, k2: FnKind)
    ensures
        k2 != fd.kind ==> markdown_of(seq![TopDecl::Function(fd)]) != markdown_of(
            seq![TopDecl::Function(FnDecl { kind: k2, ..fd })],
        ),
        fd.kind == FnKind::User ==> markdown_of(seq![TopDecl::Function(fd)])
            == "# cino Specification\n\n## Top-level Declarations\n\n- **Function**: "@ + fd.name@ + " (User)\n"@,
{
    reveal_strlit("User");
    reveal_strlit("Update");
    reveal_strlit("Query");
    reveal_strlit("# cino Specification\n\n");
    reveal_strlit("## Top-level Declarations\n\n");
    reveal_strlit("# cino Specification\n\n## Top-level Declarations\n\n- **Function**: ");
    reveal_strlit("- **Function**: ");
    reveal_strlit(" (");
    reveal_strlit(")\n");
    reveal_strlit(" (User)\n");
    let ds1 = seq![TopDecl::Function(fd)];
    let fd2 = FnDecl { kind: k2, ..fd };
    let ds2 = seq![TopDecl::Function(fd2)];
    assert(ds1.drop_last() =~= Seq::<TopDecl>::empty());
    assert(ds2.drop_last() =~= Seq::<TopDecl>::empty());
    assert(decl_lines(ds1) == decl_lines(Seq::<TopDecl>::empty()) + decl_line(TopDecl::Function(fd)));
    assert(decl_lines(ds2) == decl_lines(Seq::<TopDecl>::empty()) + decl_line(TopDecl::Function(fd2)));
    if k2 != fd.kind {
        assert(kind_name(k2).len() != kind_name(fd.kind).len());
        assert(markdown_of(ds1).len() != markdown_of(ds2).len());
    }
    if fd.kind == FnKind::User {
        assert(markdown_of(ds1) =~= "# cino Specification\n\n## Top-level Declarations\n\n- **Function**: "@ + fd.name@
            + " (User)\n"@);
    }
}

fn kind_text(k: FnKind) -> (r: &'static str)
    ensures
        r@ == kind_name(k),
{
    match k {
        FnKind::User => "User",
        FnKind::Update => "Update",
        FnKind::Query => "Query",
    }
}

/// The Markdown document of a program: its title and its top-level declarations.
pub fn render_spec_markdown(program: &Program) -> (md: String)
    ensures
        md@ == markdown_of(program.decls@),
{
    let decls = &program.decls;
    let mut md = owned("# cino Specification\n\n");
    md = concat_str(md, "## Top-level Declarations\n\n");
    let ghost head = md@;
    let mut i: usize = 0;
    assert(decls@.take(0) =~= Seq::<TopDecl>::empty());
    assert(md@ =~= head + decl_lines(decls@.take(0)));
    while i < decls.len()
        invariant
            i <= decls.len(),
            head == "# cino Specification\n\n"@ + "## Top-level Declarations\n\n"@,
            md@ == head + decl_lines(decls@.take(i as int)),
        decreases decls.len() - i,
    {
        let ghost before = md@;
        match &decls[i] {
            TopDecl::Type(td) => {
                md = concat_str(md, "- **Type**: ");
                md = concat_str(md, td.name.as_str());
                md = concat_str(md, "\n");
            },
            TopDecl::Function(fd) => {
                md = concat_str(md, "- **Function**: ");
                md = concat_str(md, fd.name.as_str());
                md = concat_str(md, " (");
                md = concat_str(md, kind_text(fd.kind));
                md = concat_str(md, ")\n");
            },
        }
        proof {
            let prefix = decls@.take(i + 1);
            assert(prefix.drop_last() =~= decls@.take(i as int));
            assert(prefix.last() == decls@[i as int]);
            assert(md@ =~= before + decl_line(decls@[i as int]));
        }
        i += 1;
    }
    assert(decls@.take(decls.len() as int) =~= decls@);
    md
}

} // verus!
