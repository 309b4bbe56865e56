use promption::slug::slugify;

#[test]
fn empty_and_symbol_names_fall_back() {
    assert_eq!(slugify(""), "unnamed");
    assert_eq!(slugify("///"), "unnamed");
    assert_eq!(slugify("***"), "unnamed");
}

#[test]
fn punctuation_and_case_are_normalized() {
    assert_eq!(slugify("My Skill!!"), "my-skill");
}

#[test]
fn separators_become_single_hyphens() {
    assert_eq!(slugify("a/b\\c"), "a-b-c");
    assert_eq!(slugify("  Hello   World  "), "hello-world");
    assert_eq!(slugify("--x--y--"), "x-y");
}

#[test]
fn non_ascii_letters_are_kept_and_lowered() {
    assert_eq!(slugify("Café Über"), "café-über");
    assert_eq!(slugify("Déjà Vu 2"), "déjà-vu-2");
}

#[test]
fn normalizing_twice_changes_nothing() {
    for s in ["", "///", "My Skill!!", "a/b\\c", "Café Über", "Rule #1: Be Nice", "x"] {
        let once = slugify(s);
        assert_eq!(slugify(&once), once);
    }
}
