use json2nix::indent::indent;

#[test]
fn empty_value_0_indentation() {
    let input = "";
    let expected = "";
    assert_eq!(expected, indent(input, 0));
}

#[test]
fn simple_value_1_indentation() {
    let input = "abc";
    let expected = " abc";
    assert_eq!(expected, indent(input, 1));
}

#[test]
fn already_indented_value_1_indentation() {
    let input = " abc";
    let expected = "  abc";
    assert_eq!(expected, indent(input, 1));
}

#[test]
fn complexer_input_4_indentation() {
    let input = "hello, indentation - 4  #  ";
    let expected = "    hello, indentation - 4  #  ";
    assert_eq!(expected, indent(input, 4));
}

#[test]
fn only_the_first_line_moves() {
    assert_eq!("  a\nb\n c", indent("a\nb\n c", 2));
}

#[test]
fn empty_value_gets_the_spaces() {
    assert_eq!("   ", indent("", 3));
}

#[test]
fn zero_width_changes_nothing() {
    assert_eq!("x y", indent("x y", 0));
}
