use std::rc::Rc;
use vcc::shows::{Row, Show, Shows, Write};

fn names(shows: &Shows) -> Vec<String> {
    let mut out = Vec::new();
    for s in shows.iter() {
        out.push((*s.name).clone());
    }
    out
}

#[test]
fn plain_show_new_keeps_the_fields() {
    let show: Show<Rc<String>> = Show::new("Dark".to_owned(), "1".to_owned(), "x".to_owned());
    assert_eq!(*show.name, "Dark");
    assert_eq!(show.season_number, "1");
    assert_eq!(show.episodes_seen, "x");
}

#[test]
fn plain_show_new_numeric_writes_the_numbers() {
    let show = Show::new_numeric("Dark".to_owned(), -2, 30);
    assert_eq!(*show.name, "Dark");
    assert_eq!(show.season_number, "-2");
    assert_eq!(show.episodes_seen, "30");
}

#[test]
fn plain_show_clear_empties_every_field() {
    let mut show: Show<String> =
        Show { name: "Dark".to_owned(), season_number: "1".to_owned(), episodes_seen: "2".to_owned() };
    show.clear();
    assert_eq!(show.name, "");
    assert_eq!(show.season_number, "");
    assert_eq!(show.episodes_seen, "");
}

#[test]
fn the_list_is_loaded_in_the_order_of_the_rows() {
    let shows = Shows::new(vec![
        Row { name: "b".to_owned(), season_number: 1, episodes_seen: 2 },
        Row { name: "a".to_owned(), season_number: 3, episodes_seen: 4 },
        Row { name: "b".to_owned(), season_number: 5, episodes_seen: 6 },
    ]);
    assert_eq!(names(&shows), vec!["b", "a", "b"]);
    assert_eq!(shows.iter()[1].season_number, "3");
    assert_eq!(shows.iter()[2].episodes_seen, "6");
}

#[test]
fn add_appends_and_asks_for_an_insert() {
    let mut shows = Shows::new(Vec::new());
    match shows.add("Dark".to_owned(), 1, 2) {
        Write::Insert { name, season_number, episodes_seen } => {
            assert_eq!(name, "Dark");
            assert_eq!(season_number, 1);
            assert_eq!(episodes_seen, 2);
        }
        _ => panic!("an insert was expected"),
    }
    shows.add("Arrow".to_owned(), 3, 4);
    assert_eq!(names(&shows), vec!["Dark", "Arrow"]);
    assert_eq!(shows.iter()[0].season_number, "1");
    assert_eq!(shows.iter()[1].episodes_seen, "4");
}

#[test]
fn remove_takes_out_the_first_show_of_that_name() {
    let mut shows = Shows::new(Vec::new());
    shows.add("a".to_owned(), 1, 1);
    shows.add("b".to_owned(), 2, 2);
    shows.add("a".to_owned(), 3, 3);
    match shows.remove("a") {
        Some(Write::Delete { name }) => assert_eq!(name, "a"),
        _ => panic!("a delete was expected"),
    }
    assert_eq!(names(&shows), vec!["b", "a"]);
    assert_eq!(shows.iter()[1].season_number, "3");
}

#[test]
fn remove_of_an_unknown_name_does_nothing() {
    let mut shows = Shows::new(Vec::new());
    shows.add("a".to_owned(), 1, 1);
    assert!(shows.remove("A").is_none());
    assert!(shows.remove("b").is_none());
    assert_eq!(names(&shows), vec!["a"]);
}

#[test]
fn update_sets_the_given_numbers() {
    let mut shows = Shows::new(Vec::new());
    shows.add("a".to_owned(), 1, 1);
    shows.add("b".to_owned(), 2, 2);
    let writes = shows.update("b", Some(7), None);
    assert_eq!(writes.len(), 1);
    match &writes[0] {
        Write::SetSeasonNumber { name, season_number } => {
            assert_eq!(name, "b");
            assert_eq!(*season_number, 7);
        }
        _ => panic!("a season write was expected"),
    }
    assert_eq!(shows.iter()[1].season_number, "7");
    assert_eq!(shows.iter()[1].episodes_seen, "2");
    let writes = shows.update("a", Some(-1), Some(9));
    assert_eq!(writes.len(), 2);
    match (&writes[0], &writes[1]) {
        (
            Write::SetSeasonNumber { name: first, season_number },
            Write::SetEpisodesSeen { name: second, episodes_seen },
        ) => {
            assert_eq!(first, "a");
            assert_eq!(second, "a");
            assert_eq!(*season_number, -1);
            assert_eq!(*episodes_seen, 9);
        }
        _ => panic!("a season write and an episode write were expected"),
    }
    assert_eq!(shows.iter()[0].season_number, "-1");
    assert_eq!(shows.iter()[0].episodes_seen, "9");
    assert_eq!(names(&shows), vec!["a", "b"]);
}

#[test]
fn update_without_numbers_writes_nothing() {
    let mut shows = Shows::new(Vec::new());
    shows.add("a".to_owned(), 1, 2);
    assert!(shows.update("a", None, None).is_empty());
    assert_eq!(shows.iter()[0].season_number, "1");
    assert_eq!(shows.iter()[0].episodes_seen, "2");
}

#[test]
fn update_of_an_unknown_name_does_nothing() {
    let mut shows = Shows::new(Vec::new());
    shows.add("a".to_owned(), 1, 2);
    assert!(shows.update("b", Some(5), Some(6)).is_empty());
    assert_eq!(shows.iter()[0].season_number, "1");
    assert_eq!(shows.iter()[0].episodes_seen, "2");
}
