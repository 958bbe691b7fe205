use vcc::search::TermMatcher;
use vcc::show::{DisplayShow, ShowCategory};

fn show(name: &str) -> DisplayShow {
    DisplayShow::new_numeric(name.to_owned(), 1, 0, ShowCategory::Watching)
}

fn names(shows: &Vec<DisplayShow>) -> Vec<String> {
    let mut out = Vec::new();
    for s in shows {
        out.push(s.name().to_owned());
    }
    out
}

#[test]
fn a_term_matches_anywhere_in_the_name() {
    let naruto = show("Naruto");
    assert!(TermMatcher::new("arut").matches(&naruto));
    assert!(TermMatcher::new("Nar").matches(&naruto));
    assert!(TermMatcher::new("uto").matches(&naruto));
    assert!(TermMatcher::new("Naruto").matches(&naruto));
    assert!(TermMatcher::new("o").matches(&naruto));
}

#[test]
fn a_term_matches_without_regard_to_case() {
    let naruto = show("Naruto");
    assert!(TermMatcher::new("ARUT").matches(&naruto));
    assert!(TermMatcher::new("nARUTo").matches(&naruto));
    assert!(TermMatcher::new("the o").matches(&show("THE OFFICE")));
    assert!(TermMatcher::new("ÉL").matches(&show("élite")));
}

#[test]
fn a_term_that_does_not_occur_does_not_match() {
    let naruto = show("Naruto");
    assert!(!TermMatcher::new("arutx").matches(&naruto));
    assert!(!TermMatcher::new("Naruto ").matches(&naruto));
    assert!(!TermMatcher::new("Narutoo").matches(&naruto));
    assert!(!TermMatcher::new("office").matches(&naruto));
    assert!(!TermMatcher::new("aurt").matches(&naruto));
}

#[test]
fn the_empty_term_matches_every_name() {
    let all = TermMatcher::new("");
    assert!(all.matches(&show("Naruto")));
    assert!(all.matches(&show("")));
}

#[test]
fn a_term_matches_the_empty_name_only_if_empty() {
    assert!(!TermMatcher::new("a").matches(&show("")));
}

#[test]
fn collect_appends_the_matching_shows_in_order() {
    let shows = vec![show("Naruto"), show("The Office"), show("Boruto"), show("Dark")];
    let mut out = vec![show("kept")];
    TermMatcher::new("RUT").collect(&shows, &mut out);
    assert_eq!(names(&out), vec!["kept", "Naruto", "Boruto"]);
}

#[test]
fn collect_with_the_empty_term_appends_all() {
    let shows = vec![show("Naruto"), show("The Office")];
    let mut out = Vec::new();
    TermMatcher::new("").collect(&shows, &mut out);
    assert_eq!(names(&out), vec!["Naruto", "The Office"]);
}

#[test]
fn collect_without_a_match_appends_nothing() {
    let shows = vec![show("Naruto"), show("The Office")];
    let mut out = Vec::new();
    TermMatcher::new("zzz").collect(&shows, &mut out);
    assert!(out.is_empty());
}
