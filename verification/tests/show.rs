use vcc::order::KeyOrder;
use vcc::show::{AdderShow, DisplayShow, SearchableName, Show, ShowCategory};

#[test]
fn category_codes_are_zero_one_two() {
    assert_eq!(ShowCategory::Watching.code(), 0);
    assert_eq!(ShowCategory::PlanToWatch.code(), 1);
    assert_eq!(ShowCategory::Completed.code(), 2);
}

#[test]
fn category_is_read_back_from_its_code() {
    assert_eq!(ShowCategory::try_from(0), Ok(ShowCategory::Watching));
    assert_eq!(ShowCategory::try_from(1), Ok(ShowCategory::PlanToWatch));
    assert_eq!(ShowCategory::try_from(2), Ok(ShowCategory::Completed));
    for category in [ShowCategory::Watching, ShowCategory::PlanToWatch, ShowCategory::Completed] {
        assert_eq!(ShowCategory::try_from(category.code()), Ok(category));
    }
}

#[test]
fn category_code_out_of_range_is_an_error() {
    assert_eq!(ShowCategory::try_from(3), Err(()));
    assert_eq!(ShowCategory::try_from(-1), Err(()));
    assert_eq!(ShowCategory::try_from(i64::MAX), Err(()));
    assert_eq!(ShowCategory::try_from(i64::MIN), Err(()));
}

#[test]
fn default_category_is_plan_to_watch() {
    assert_eq!(ShowCategory::default(), ShowCategory::PlanToWatch);
}

#[test]
fn default_numeric_string_is_zero() {
    assert_eq!(AdderShow::default_numeric_string(), "0");
}

#[test]
fn default_form_is_blank() {
    let form = AdderShow::default();
    assert_eq!(form.name, "");
    assert_eq!(form.season_number, "0");
    assert_eq!(form.episodes_seen, "0");
    assert_eq!(form.category, ShowCategory::PlanToWatch);
}

#[test]
fn clear_empties_the_form() {
    let mut form: AdderShow = Show {
        name: "Naruto".to_owned(),
        season_number: "3".to_owned(),
        episodes_seen: "41".to_owned(),
        category: ShowCategory::Completed,
    };
    form.clear();
    assert_eq!(form.name, "");
    assert_eq!(form.season_number, "0");
    assert_eq!(form.episodes_seen, "0");
    assert_eq!(form.category, ShowCategory::PlanToWatch);
}

#[test]
fn form_clone_keeps_every_field() {
    let form: AdderShow = Show {
        name: "Naruto".to_owned(),
        season_number: "3".to_owned(),
        episodes_seen: "41".to_owned(),
        category: ShowCategory::Completed,
    };
    let copy = form.clone();
    assert_eq!(copy.name, "Naruto");
    assert_eq!(copy.season_number, "3");
    assert_eq!(copy.episodes_seen, "41");
    assert_eq!(copy.category, ShowCategory::Completed);
}

#[test]
fn searchable_name_keeps_name_and_lower_case_form() {
    let name = SearchableName::new("The Office".to_owned());
    assert_eq!(name.name(), "The Office");
    assert_eq!(name.lower_name(), "the office");
    assert_eq!(name.key_bytes(), b"the office");
}

#[test]
fn searchable_name_lowers_beyond_ascii() {
    let name = SearchableName::new("ÉLITE".to_owned());
    assert_eq!(name.name(), "ÉLITE");
    assert_eq!(name.lower_name(), "élite");
    assert_eq!(name.key_bytes(), "élite".as_bytes());
}

#[test]
fn try_new_keeps_an_ordinary_name() {
    let name = SearchableName::try_new("Dark".to_owned()).unwrap();
    assert_eq!(name.name(), "Dark");
    assert_eq!(name.lower_name(), "dark");
}

#[test]
fn empty_name_is_kept() {
    let name = SearchableName::try_new(String::new()).unwrap();
    assert_eq!(name.name(), "");
    assert_eq!(name.lower_name(), "");
}

#[test]
fn names_are_ordered_without_regard_to_case() {
    let apple = SearchableName::new("apple".to_owned());
    let banana = SearchableName::new("Banana".to_owned());
    let upper = SearchableName::new("APPLE".to_owned());
    assert_eq!(apple.key_order(&banana), KeyOrder::Before);
    assert_eq!(banana.key_order(&apple), KeyOrder::After);
    assert_eq!(apple.key_order(&upper), KeyOrder::Same);
    assert_eq!(upper.key_order(&apple), KeyOrder::Same);
}

#[test]
fn a_prefix_comes_before_the_longer_name() {
    let short = SearchableName::new("Dark".to_owned());
    let long = SearchableName::new("Dark Matter".to_owned());
    assert_eq!(short.key_order(&long), KeyOrder::Before);
    assert_eq!(long.key_order(&short), KeyOrder::After);
}

#[test]
fn long_names_are_ordered_by_their_first_difference() {
    let a = SearchableName::new("A Series of Unfortunate Events".to_owned());
    let b = SearchableName::new("A Series of Unfortunate Evenings".to_owned());
    assert_eq!(a.key_order(&b), KeyOrder::After);
    assert_eq!(b.key_order(&a), KeyOrder::Before);
    assert_eq!(a.key_order(&a.clone()), KeyOrder::Same);
}

#[test]
fn names_of_middle_length_are_ordered_by_their_bytes() {
    let a = SearchableName::new("Breaking".to_owned());
    let b = SearchableName::new("Breakout".to_owned());
    let c = SearchableName::new("Break".to_owned());
    assert_eq!(a.key_order(&b), KeyOrder::Before);
    assert_eq!(c.key_order(&a), KeyOrder::Before);
    assert_eq!(b.key_order(&c), KeyOrder::After);
}

#[test]
fn display_show_new_keeps_the_fields() {
    let show = DisplayShow::new(
        "Naruto".to_owned(),
        "3".to_owned(),
        "41".to_owned(),
        ShowCategory::Watching,
    );
    assert_eq!(show.name(), "Naruto");
    assert_eq!(show.lower_name(), "naruto");
    assert_eq!(show.season_number, "3");
    assert_eq!(show.episodes_seen, "41");
    assert_eq!(show.category, ShowCategory::Watching);
    assert_eq!(show.key_bytes(), b"naruto");
}

#[test]
fn display_show_new_numeric_writes_the_numbers() {
    let show = DisplayShow::new_numeric("Dark".to_owned(), 3, -12, ShowCategory::Completed);
    assert_eq!(show.name(), "Dark");
    assert_eq!(show.season_number, "3");
    assert_eq!(show.episodes_seen, "-12");
    assert_eq!(show.category, ShowCategory::Completed);
}

#[test]
fn display_show_try_new_keeps_the_fields() {
    let show = DisplayShow::try_new(
        "Dark".to_owned(),
        "x".to_owned(),
        "".to_owned(),
        ShowCategory::PlanToWatch,
    )
    .unwrap();
    assert_eq!(show.name(), "Dark");
    assert_eq!(show.season_number, "x");
    assert_eq!(show.episodes_seen, "");
    assert_eq!(show.category, ShowCategory::PlanToWatch);
}

#[test]
fn display_show_try_new_numeric_writes_the_numbers() {
    let show =
        DisplayShow::try_new_numeric("Dark".to_owned(), i64::MIN, i64::MAX, ShowCategory::Watching)
            .unwrap();
    assert_eq!(show.season_number, "-9223372036854775808");
    assert_eq!(show.episodes_seen, "9223372036854775807");
}

#[test]
fn display_show_clone_keeps_every_field() {
    let show = DisplayShow::new_numeric("The Office".to_owned(), 2, 5, ShowCategory::Watching);
    let copy = show.clone();
    assert_eq!(copy.name(), "The Office");
    assert_eq!(copy.lower_name(), "the office");
    assert_eq!(copy.season_number, "2");
    assert_eq!(copy.episodes_seen, "5");
    assert_eq!(copy.category, ShowCategory::Watching);
    assert_eq!(copy.key_order(&show), KeyOrder::Same);
}

#[test]
fn shows_are_ordered_by_name_alone() {
    let a = DisplayShow::new_numeric("alpha".to_owned(), 9, 9, ShowCategory::Completed);
    let b = DisplayShow::new_numeric("Beta".to_owned(), 1, 1, ShowCategory::Watching);
    let c = DisplayShow::new_numeric("ALPHA".to_owned(), 0, 0, ShowCategory::Watching);
    assert_eq!(a.key_order(&b), KeyOrder::Before);
    assert_eq!(b.key_order(&a), KeyOrder::After);
    assert_eq!(a.key_order(&c), KeyOrder::Same);
}
