use rlci::{AutoCompleter, CommandHint, Helper, LangHinter, Palette};

fn texts(v: &[CommandHint]) -> Vec<String> {
    v.iter().map(|h| h.display().to_string()).collect()
}

#[test]
fn helper_completes_last_word() {
    let mut helper = Helper::new();
    helper.add("true");
    helper.add("trace");
    helper.add("false");
    let (pos, found) = helper.complete("not tr", 6);
    assert_eq!(pos, 6);
    assert_eq!(texts(&found), vec!["ue", "ace"]);
}

#[test]
fn helper_offers_nothing_inside_line() {
    let mut helper = Helper::new();
    helper.add("true");
    let (pos, found) = helper.complete("tr x", 1);
    assert_eq!(pos, 1);
    assert!(found.is_empty());
    assert!(helper.complete("", 0).1.is_empty());
}

#[test]
fn helper_keeps_duplicates() {
    let mut helper = Helper::new();
    helper.add("id");
    helper.add("id");
    assert_eq!(texts(&helper.complete("i", 1).1), vec!["d", "d"]);
}

#[test]
fn completer_keeps_each_name_once() {
    let mut completer = AutoCompleter::new();
    completer.add("id");
    completer.add("id");
    completer.add("if");
    assert_eq!(texts(&completer.complete("x i", 3).1), vec!["d", "f"]);
    assert_eq!(texts(&completer.complete("x ", 2).1), vec!["id", "if"]);
}

#[test]
fn hinter_uses_whole_line() {
    let mut hinter = LangHinter::new();
    hinter.add("and");
    hinter.add("not");
    assert_eq!(hinter.hint("an", 2).map(|h| h.display().to_string()), Some("d".to_string()));
    assert!(hinter.hint("x an", 4).is_none());
    assert!(hinter.hint("an", 1).is_none());
    assert!(hinter.hint("", 0).is_none());
}

#[test]
fn hint_suffix_strips_characters() {
    let h = CommandHint::new("λabc");
    assert_eq!(h.suffix(2).display(), "bc");
}

fn brackets() -> Palette {
    Palette {
        lambda: "<L>".to_string(),
        equal: "<E>".to_string(),
        left: "<(>".to_string(),
        right: "<)>".to_string(),
        hash: "<#>".to_string(),
    }
}

#[test]
fn highlight_replaces_meaningful_characters() {
    assert_eq!(
        brackets().highlight(r"id = (\x λy x) # c"),
        "id <E> <(><L>x <L>y x<)> <#> c"
    );
}

#[test]
fn highlight_keeps_plain_text() {
    assert_eq!(brackets().highlight("abc def"), "abc def");
    assert_eq!(brackets().highlight(""), "");
}

#[test]
fn colored_palette_keeps_the_characters() {
    let shown = Palette::colored().highlight("f = a");
    assert!(shown.starts_with("f "));
    assert!(shown.ends_with(" a"));
    assert!(shown.contains('='));
}
