use vcc::show::{AdderShow, DisplayShow, Show, ShowCategory};
use vcc::shows_db::StoreWrite;
use vcc::shows_view::{ShowsView, UiShowCategory};
use vcc::ui::{NumberField, Step, Vcc};

fn form(name: &str, season: &str, episodes: &str, category: ShowCategory) -> AdderShow {
    Show {
        name: name.to_owned(),
        season_number: season.to_owned(),
        episodes_seen: episodes.to_owned(),
        category,
    }
}

fn numbered(count: usize) -> Vcc {
    let mut shows = Vec::new();
    for i in 0..count {
        shows.push(DisplayShow::new_numeric(format!("Show {:02}", i), 1, 0, ShowCategory::Watching));
    }
    Vcc::new(ShowsView::new(shows))
}

fn visible_names(vcc: &Vcc) -> Vec<String> {
    let mut out = Vec::new();
    for i in 0..vcc.shows().len() {
        out.push(vcc.shows().show(i).unwrap().name().to_owned());
    }
    out
}

#[test]
fn new_interface_has_an_empty_form_and_queue() {
    let vcc = numbered(2);
    assert_eq!(vcc.adder().name, "");
    assert_eq!(vcc.adder().season_number, "0");
    assert_eq!(vcc.adder().episodes_seen, "0");
    assert_eq!(vcc.adder().category, ShowCategory::PlanToWatch);
    assert_eq!(vcc.pending(), 0);
    assert_eq!(vcc.shows().len(), 2);
}

#[test]
fn a_filled_form_is_queued_and_emptied() {
    let mut vcc = numbered(0);
    vcc.set_adder(form("Dark", "1", "+4", ShowCategory::Completed));
    assert!(vcc.submit_add());
    assert_eq!(vcc.pending(), 1);
    assert_eq!(vcc.adder().name, "");
    assert_eq!(vcc.adder().season_number, "0");
    assert_eq!(vcc.shows().len(), 0);
    let writes = vcc.apply_modifications();
    assert_eq!(writes.len(), 1);
    match &writes[0] {
        StoreWrite::Insert(row) => {
            assert_eq!(row.name, "Dark");
            assert_eq!(row.season_number, "1");
            assert_eq!(row.episodes_seen, "+4");
            assert_eq!(row.category, 2);
        }
        _ => panic!("an insert was expected"),
    }
    assert_eq!(vcc.pending(), 0);
    assert_eq!(vcc.shows().current_category(), UiShowCategory::Completed);
    assert_eq!(visible_names(&vcc), vec!["Dark"]);
}

#[test]
fn a_form_without_a_name_is_dropped() {
    let mut vcc = numbered(0);
    vcc.set_adder(form("", "1", "4", ShowCategory::Completed));
    assert!(!vcc.submit_add());
    assert_eq!(vcc.pending(), 0);
    assert_eq!(vcc.adder().season_number, "0");
    assert_eq!(vcc.adder().category, ShowCategory::PlanToWatch);
}

#[test]
fn a_form_with_a_field_that_is_no_number_is_dropped() {
    let mut vcc = numbered(0);
    vcc.set_adder(form("Dark", "one", "4", ShowCategory::Completed));
    assert!(!vcc.submit_add());
    vcc.set_adder(form("Dark", "1", "", ShowCategory::Completed));
    assert!(!vcc.submit_add());
    vcc.set_adder(form("Dark", "1", "4.5", ShowCategory::Completed));
    assert!(!vcc.submit_add());
    assert_eq!(vcc.pending(), 0);
    assert_eq!(vcc.adder().name, "");
    assert!(vcc.apply_modifications().is_empty());
    assert_eq!(vcc.shows().len(), 0);
}

#[test]
fn modifications_are_applied_in_the_order_of_the_queue() {
    let mut vcc = numbered(0);
    vcc.set_adder(form("b", "1", "1", ShowCategory::Watching));
    vcc.submit_add();
    vcc.set_adder(form("B", "2", "2", ShowCategory::Watching));
    vcc.submit_add();
    vcc.set_adder(form("a", "3", "3", ShowCategory::Watching));
    vcc.submit_add();
    assert_eq!(vcc.pending(), 3);
    let writes = vcc.apply_modifications();
    assert_eq!(writes.len(), 2);
    match (&writes[0], &writes[1]) {
        (StoreWrite::Insert(first), StoreWrite::Insert(second)) => {
            assert_eq!(first.name, "b");
            assert_eq!(first.season_number, "1");
            assert_eq!(second.name, "a");
        }
        _ => panic!("two inserts were expected"),
    }
    assert_eq!(visible_names(&vcc), vec!["a", "b"]);
    assert_eq!(vcc.shows().show(1).unwrap().season_number, "1");
}

#[test]
fn an_update_behind_a_removal_in_one_batch_is_stale() {
    let mut vcc = numbered(8);
    vcc.shows();
    vcc.submit_remove(5);
    assert!(vcc.step(5, NumberField::SeasonNumber, Step::Up));
    assert_eq!(vcc.pending(), 2);
    let writes = vcc.apply_modifications();
    assert_eq!(writes.len(), 1);
    match &writes[0] {
        StoreWrite::Delete(name) => assert_eq!(name, "Show 05"),
        _ => panic!("a delete was expected"),
    }
    assert_eq!(vcc.shows().len(), 7);
    assert_eq!(vcc.shows().show(5).unwrap().name(), "Show 06");
    for i in 0..7 {
        assert_eq!(vcc.shows().show(i).unwrap().season_number, "1");
        assert_eq!(vcc.shows().shows().partition(ShowCategory::Watching)[i].season_number, "1");
    }
}

#[test]
fn two_removals_at_one_position_remove_one_show() {
    let mut vcc = numbered(4);
    vcc.submit_remove(2);
    vcc.submit_remove(2);
    let writes = vcc.apply_modifications();
    assert_eq!(writes.len(), 1);
    assert!(matches!(&writes[0], StoreWrite::Delete(name) if name == "Show 02"));
    assert_eq!(visible_names(&vcc), vec!["Show 00", "Show 01", "Show 03"]);
}

#[test]
fn a_position_behind_a_removal_is_stale() {
    let mut vcc = numbered(4);
    vcc.submit_remove(1);
    vcc.submit_remove(3);
    vcc.submit_update(2);
    let writes = vcc.apply_modifications();
    assert_eq!(writes.len(), 1);
    assert!(matches!(&writes[0], StoreWrite::Delete(name) if name == "Show 01"));
    assert_eq!(visible_names(&vcc), vec!["Show 00", "Show 02", "Show 03"]);
}

#[test]
fn a_position_before_a_removal_stays_valid() {
    let mut vcc = numbered(8);
    vcc.submit_remove(5);
    assert!(vcc.step(3, NumberField::EpisodesSeen, Step::Up));
    vcc.submit_remove(0);
    vcc.submit_update(3);
    let writes = vcc.apply_modifications();
    assert_eq!(writes.len(), 3);
    match (&writes[0], &writes[1], &writes[2]) {
        (StoreWrite::Delete(a), StoreWrite::Update(b), StoreWrite::Delete(c)) => {
            assert_eq!(a, "Show 05");
            assert_eq!(b.name, "Show 03");
            assert_eq!(b.episodes_seen, "1");
            assert_eq!(c, "Show 00");
        }
        _ => panic!("a delete, an update and a delete were expected"),
    }
    assert_eq!(
        visible_names(&vcc),
        vec!["Show 01", "Show 02", "Show 03", "Show 04", "Show 06", "Show 07"]
    );
    assert_eq!(vcc.shows().shows().partition(ShowCategory::Watching)[2].episodes_seen, "1");
}

#[test]
fn an_add_behind_a_removal_is_applied() {
    let mut vcc = numbered(3);
    vcc.submit_remove(7);
    vcc.submit_remove(1);
    vcc.submit_update(1);
    vcc.set_adder(form("Dark", "1", "1", ShowCategory::Watching));
    vcc.submit_add();
    vcc.submit_update(0);
    let writes = vcc.apply_modifications();
    assert_eq!(writes.len(), 2);
    assert!(matches!(&writes[0], StoreWrite::Delete(name) if name == "Show 01"));
    assert!(matches!(&writes[1], StoreWrite::Insert(row) if row.name == "Dark"));
    assert_eq!(visible_names(&vcc), vec!["Dark", "Show 00", "Show 02"]);
}

#[test]
fn updates_in_place_do_not_make_positions_stale() {
    let mut vcc = numbered(3);
    assert!(vcc.step(0, NumberField::SeasonNumber, Step::Up));
    assert!(vcc.step(2, NumberField::EpisodesSeen, Step::Down));
    vcc.submit_remove(1);
    let writes = vcc.apply_modifications();
    assert_eq!(writes.len(), 3);
    match (&writes[0], &writes[1], &writes[2]) {
        (StoreWrite::Update(a), StoreWrite::Update(b), StoreWrite::Delete(c)) => {
            assert_eq!(a.name, "Show 00");
            assert_eq!(a.season_number, "2");
            assert_eq!(b.name, "Show 02");
            assert_eq!(b.episodes_seen, "-1");
            assert_eq!(c, "Show 01");
        }
        _ => panic!("two updates and a delete were expected"),
    }
    assert_eq!(visible_names(&vcc), vec!["Show 00", "Show 02"]);
}

#[test]
fn a_move_makes_later_positions_stale() {
    let mut vcc = numbered(3);
    vcc.choose_category(0, ShowCategory::Completed);
    vcc.submit_remove(1);
    let writes = vcc.apply_modifications();
    assert_eq!(writes.len(), 1);
    assert!(matches!(&writes[0], StoreWrite::Update(row) if row.name == "Show 00" && row.category == 2));
    assert_eq!(vcc.shows().current_category(), UiShowCategory::Completed);
    assert_eq!(visible_names(&vcc), vec!["Show 00"]);
    assert_eq!(vcc.shows().shows().partition(ShowCategory::Watching).len(), 2);
}

#[test]
fn a_step_changes_the_field_and_queues_the_update() {
    let mut vcc = numbered(2);
    assert!(vcc.step(1, NumberField::EpisodesSeen, Step::Up));
    assert_eq!(vcc.shows().show(1).unwrap().episodes_seen, "1");
    assert_eq!(vcc.shows().show(1).unwrap().season_number, "1");
    assert_eq!(vcc.pending(), 1);
    assert!(vcc.step(1, NumberField::SeasonNumber, Step::Down));
    assert_eq!(vcc.shows().show(1).unwrap().season_number, "0");
    assert_eq!(vcc.pending(), 2);
}

#[test]
fn a_step_at_a_stale_position_does_nothing() {
    let mut vcc = numbered(2);
    assert!(!vcc.step(2, NumberField::EpisodesSeen, Step::Up));
    assert_eq!(vcc.pending(), 0);
}

#[test]
fn typed_numbers_are_written_anew_and_queued() {
    let mut vcc = numbered(2);
    assert!(vcc.type_number(0, NumberField::SeasonNumber, "007".to_owned()));
    assert_eq!(vcc.shows().show(0).unwrap().season_number, "7");
    assert_eq!(vcc.pending(), 1);
    let writes = vcc.apply_modifications();
    assert!(matches!(&writes[0], StoreWrite::Update(row) if row.season_number == "7"));
}

#[test]
fn typed_text_that_is_no_number_stays_in_the_field() {
    let mut vcc = numbered(2);
    assert!(!vcc.type_number(0, NumberField::EpisodesSeen, "1x".to_owned()));
    assert_eq!(vcc.shows().show(0).unwrap().episodes_seen, "1x");
    assert_eq!(vcc.pending(), 0);
    assert_eq!(vcc.shows().shows().partition(ShowCategory::Watching)[0].episodes_seen, "0");
    assert!(!vcc.step(0, NumberField::EpisodesSeen, Step::Up));
    assert!(!vcc.type_number(9, NumberField::EpisodesSeen, "1".to_owned()));
}

#[test]
fn a_chosen_category_is_queued() {
    let mut vcc = numbered(2);
    vcc.choose_category(1, ShowCategory::PlanToWatch);
    assert_eq!(vcc.shows().show(1).unwrap().category, ShowCategory::PlanToWatch);
    assert_eq!(vcc.pending(), 1);
    vcc.choose_category(2, ShowCategory::PlanToWatch);
    assert_eq!(vcc.pending(), 1);
    vcc.apply_modifications();
    assert_eq!(visible_names(&vcc), vec!["Show 01"]);
    assert_eq!(vcc.shows().current_category(), UiShowCategory::PlanToWatch);
}

#[test]
fn the_view_is_reached_through_the_interface() {
    let mut vcc = numbered(25);
    vcc.next_page();
    assert_eq!(vcc.shows().page(), 2);
    vcc.previous_page();
    assert_eq!(vcc.shows().page(), 1);
    vcc.search("show 24".to_owned());
    assert_eq!(visible_names(&vcc), vec!["Show 24"]);
    vcc.update_category(UiShowCategory::Completed);
    assert!(visible_names(&vcc).is_empty());
}
