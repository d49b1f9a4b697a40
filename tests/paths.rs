use qp_compare::{Path, PathElement, PathError};

fn round_trip(s: &str) {
    let p = Path::parse(s).expect("valid path");
    assert_eq!(p.to_string(), s);
}

#[test]
fn path_round_trip_examples() {
    round_trip("");
    round_trip("/");
    round_trip("/book/3/name");
    round_trip("/a/@/b");
    round_trip("/a/@|[A,B]/b");
    round_trip("/... on User/name");
    round_trip("/k|[]");
    round_trip("/k|[T]/0");
    round_trip("/007");
    round_trip("/18446744073709551616");
    round_trip("/a|b");
    round_trip("/a|b]");
    round_trip("/... on T|[A]");
}

#[test]
fn path_lone_bar_is_part_of_a_key() {
    let p = Path::parse("/a|b/c|d]").unwrap();
    assert_eq!(
        p.iter(),
        &vec![PathElement::Key("a|b".to_string(), None), PathElement::Key("c|d]".to_string(), None)]
    );
    let q = Path::parse("/a||[B]").unwrap();
    assert_eq!(q.iter(), &vec![PathElement::Key("a|".to_string(), Some(vec!["B".to_string()]))]);
}

#[test]
fn path_fragment_keeps_suffix_in_name() {
    let p = Path::parse("/... on T|[A]").unwrap();
    assert_eq!(p.iter(), &vec![PathElement::Fragment("T|[A]".to_string())]);
    assert_eq!(Path(vec![PathElement::Fragment("T|[A]".to_string())]).to_string(), "/... on T|[A]");
}

#[test]
fn path_parse_elements() {
    let p = Path::parse("/a|[A,B]/@/3/... on T").unwrap();
    assert_eq!(
        p.iter(),
        &vec![
            PathElement::Key("a".to_string(), Some(vec!["A".to_string(), "B".to_string()])),
            PathElement::Flatten(None),
            PathElement::Index(3),
            PathElement::Fragment("T".to_string()),
        ]
    );
    let q = Path::parse("/@|[]").unwrap();
    assert_eq!(q.iter(), &vec![PathElement::Flatten(Some(vec![]))]);
}

#[test]
fn path_leading_zero_and_overflow_are_keys() {
    let p = Path::parse("/007/18446744073709551616").unwrap();
    assert_eq!(
        p.iter(),
        &vec![
            PathElement::Key("007".to_string(), None),
            PathElement::Key("18446744073709551616".to_string(), None),
        ]
    );
}

#[test]
fn path_invalid_syntax() {
    assert_eq!(Path::parse("a/b"), Err(PathError::InvalidPathSyntax));
    assert_eq!(Path::parse("/@x"), Err(PathError::InvalidPathSyntax));
    assert_eq!(Path::parse("/a|[b"), Err(PathError::InvalidPathSyntax));
    assert_eq!(Path::parse("/a|[b]c"), Err(PathError::InvalidPathSyntax));
    assert_eq!(Path::parse("/3|[A]"), Ok(Path(vec![PathElement::Key("3".to_string(), Some(vec!["A".to_string()]))])));
}

#[test]
fn path_format_exact() {
    let p = Path(vec![
        PathElement::Key("k".to_string(), Some(vec![])),
        PathElement::Flatten(Some(vec!["A".to_string(), "B".to_string()])),
        PathElement::Index(42),
        PathElement::Fragment("User".to_string()),
    ]);
    assert_eq!(p.to_string(), "/k|[]/@|[A,B]/42/... on User");
    assert_eq!(Path(vec![]).to_string(), "");
}
