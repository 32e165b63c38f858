use snarc::tracing::{push_decimal, render_family};
use snarc::{Origin, OriginKind, Site};

#[test]
fn format_origin_single() {
    let subj = Origin {
        kind: OriginKind::New,
        site: Site::Unknown,
        id: 15,
    };

    assert_eq!("new<15>[?]".to_string(), subj.render());

    let subj = Origin {
        kind: OriginKind::New,
        site: Site::SourceFile {
            file: "foo.rs",
            line: 543,
        },
        id: 123,
    };

    assert_eq!("new<123>[foo.rs:543]".to_string(), subj.render());

    let subj = Origin {
        kind: OriginKind::New,
        site: Site::Annotated("dummy".to_string()),
        id: 0,
    };

    assert_eq!("new<0>[\"dummy\"]".to_string(), subj.render());
}

#[test]
fn format_origin_chain() {
    let one = Origin {
        kind: OriginKind::New,
        site: Site::SourceFile {
            file: "orig.rs",
            line: 999,
        },
        id: 0,
    };

    let two = Origin {
        kind: OriginKind::Cloned(Box::new(one)),
        site: Site::Annotated("step two".to_string()),
        id: 1,
    };

    let three = Origin {
        kind: OriginKind::Downgraded(Box::new(two)),
        site: Site::Unknown,
        id: 2,
    };

    let four = Origin {
        kind: OriginKind::Upgraded(Box::new(three)),
        site: Site::SourceFile {
            file: "final.rs",
            line: 42,
        },
        id: 3,
    };

    assert_eq!(
        "upgrade<3>[final.rs:42] <- downgrade<2>[?] \
         <- clone<1>[\"step two\"] <- new<0>[orig.rs:999]",
        four.render()
    );
}

#[test]
fn decimal_of_edge_values() {
    let mut out = String::new();
    push_decimal(&mut out, 0);
    assert_eq!(out, "0");
    let mut out = String::from("x");
    push_decimal(&mut out, 1090);
    assert_eq!(out, "x1090");
    let mut out = String::new();
    push_decimal(&mut out, usize::MAX);
    assert_eq!(out, usize::MAX.to_string());
}

#[test]
fn site_texts() {
    assert_eq!(Site::Unknown.render(), "?");
    assert_eq!(Site::SourceFile { file: "a.rs", line: 7 }.render(), "a.rs:7");
    assert_eq!(Site::Annotated("note".to_string()).render(), "\"note\"");
    assert_eq!(Site::Annotated(String::new()).render(), "\"\"");
}

#[test]
fn family_listing() {
    let root = Origin { kind: OriginKind::New, site: Site::Unknown, id: 0 };
    let clone = Origin {
        kind: OriginKind::Cloned(Box::new(root.clone())),
        site: Site::SourceFile { file: "src/lib.rs", line: 475 },
        id: 1,
    };
    let weak = Origin {
        kind: OriginKind::Downgraded(Box::new(clone.clone())),
        site: Site::Unknown,
        id: 2,
    };
    let text = render_family(1, &vec![root, clone], &vec![weak]);
    assert_eq!(
        text,
        "Family associated with ID: 1\n\
         S| new<0>[?]\n\
         S| clone<1>[src/lib.rs:475] <- new<0>[?]\n\
         W| downgrade<2>[?] <- clone<1>[src/lib.rs:475] <- new<0>[?]\n"
    );
    assert_eq!(render_family(7, &vec![], &vec![]), "Family associated with ID: 7\n");
}
