use elements_descriptor::error::Error;
use elements_descriptor::expression::Tree;

fn shape(t: &Tree) -> String {
    if t.args.is_empty() {
        t.name.clone()
    } else {
        let args: Vec<String> = t.args.iter().map(shape).collect();
        format!("{}<{}>", t.name, args.join(";"))
    }
}

#[test]
fn parses_leaf() {
    let t = Tree::from_str("abc").unwrap();
    assert_eq!(t.name, "abc");
    assert!(t.args.is_empty());
}

#[test]
fn parses_nested() {
    let t = Tree::from_str("and(pk(A),or(older(9),b))").unwrap();
    assert_eq!(shape(&t), "and<pk<A>;or<older<9>;b>>");
    assert_eq!(t.args.len(), 2);
    assert_eq!(t.args[1].args[0].args[0].name, "9");
}

#[test]
fn parses_empty_argument_list() {
    let t = Tree::from_str("f()").unwrap();
    assert_eq!(t.name, "f");
    assert!(t.args.is_empty());
    let t = Tree::from_str("f(g(),h)").unwrap();
    assert_eq!(shape(&t), "f<g;h>");
}

#[test]
fn names_may_hold_any_other_character() {
    let t = Tree::from_str("a b#[1/2']*(x y)").unwrap();
    assert_eq!(t.name, "a b#[1/2']*");
    assert_eq!(t.args[0].name, "x y");
    let t = Tree::from_str("caf\u{e9}(\u{2764})").unwrap();
    assert_eq!(t.name, "caf\u{e9}");
    assert_eq!(t.args[0].name, "\u{2764}");
}

#[test]
fn rejects_malformed_text() {
    for text in [
        "", "(", ")", ",", "()", "(a)", "a(", "a(b", "a(b,", "a(b,)", "a(,b)", "a(b))", "a(b)c",
        "a(b)(c)", "a,b", "a)", "a(b,c", "a(b(c)", "a((b))", "a(b)a(b)",
    ] {
        assert!(matches!(Tree::from_str(text), Err(Error::Parse)), "accepted {:?}", text);
    }
}

#[test]
fn from_chars_agrees_with_from_str() {
    let chars: Vec<char> = "f(a,b(c))".chars().collect();
    let t = Tree::from_chars(&chars).unwrap();
    assert_eq!(shape(&t), "f<a;b<c>>");
}

#[test]
fn clone_copies_the_whole_tree() {
    let t = Tree::from_str("f(a,b(c))").unwrap();
    let u = t.clone();
    assert_eq!(shape(&u), shape(&t));
}

#[test]
fn deep_and_wide() {
    let mut text = String::new();
    for _ in 0..200 {
        text.push_str("n(");
    }
    text.push('x');
    for _ in 0..200 {
        text.push(')');
    }
    let mut t = &Tree::from_str(&text).unwrap();
    let mut depth = 0;
    while !t.args.is_empty() {
        t = &t.args[0];
        depth += 1;
    }
    assert_eq!(depth, 200);
    let wide = format!("w({})", vec!["k"; 1000].join(","));
    assert_eq!(Tree::from_str(&wide).unwrap().args.len(), 1000);
}
