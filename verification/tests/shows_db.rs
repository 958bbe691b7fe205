use vcc::show::{DisplayShow, ShowCategory};
use vcc::shows_db::{load_show, record, StoreWrite};

#[test]
fn record_holds_the_texts_and_the_category_code() {
    let show = DisplayShow::new(
        "The Office".to_owned(),
        "2".to_owned(),
        "13".to_owned(),
        ShowCategory::Completed,
    );
    let row = record(&show);
    assert_eq!(row.name, "The Office");
    assert_eq!(row.season_number, "2");
    assert_eq!(row.episodes_seen, "13");
    assert_eq!(row.category, 2);
}

#[test]
fn writes_carry_the_show() {
    let show = DisplayShow::new_numeric("Dark".to_owned(), 1, 4, ShowCategory::Watching);
    match StoreWrite::add(&show) {
        StoreWrite::Insert(row) => {
            assert_eq!(row.name, "Dark");
            assert_eq!(row.season_number, "1");
            assert_eq!(row.episodes_seen, "4");
            assert_eq!(row.category, 0);
        }
        _ => panic!("an insert was expected"),
    }
    match StoreWrite::update(&show) {
        StoreWrite::Update(row) => {
            assert_eq!(row.name, "Dark");
            assert_eq!(row.season_number, "1");
            assert_eq!(row.episodes_seen, "4");
            assert_eq!(row.category, 0);
        }
        _ => panic!("an update was expected"),
    }
    match StoreWrite::remove(&show) {
        StoreWrite::Delete(name) => assert_eq!(name, "Dark"),
        _ => panic!("a delete was expected"),
    }
}

#[test]
fn a_row_is_loaded_as_a_show() {
    let show = load_show("Naruto".to_owned(), 3, 41, 1).unwrap();
    assert_eq!(show.name(), "Naruto");
    assert_eq!(show.season_number, "3");
    assert_eq!(show.episodes_seen, "41");
    assert_eq!(show.category, ShowCategory::PlanToWatch);
}

#[test]
fn a_row_without_a_category_is_not_loaded() {
    assert!(load_show("Naruto".to_owned(), 3, 41, 3).is_none());
    assert!(load_show("Naruto".to_owned(), 3, 41, -1).is_none());
}

#[test]
fn a_written_show_is_loaded_again_as_it_was() {
    for category in [ShowCategory::Watching, ShowCategory::PlanToWatch, ShowCategory::Completed] {
        let show = DisplayShow::new_numeric("Élite".to_owned(), -3, 77, category);
        let row = record(&show);
        let season: i64 = vcc::number::parse_number(&row.season_number).unwrap();
        let episodes: i64 = vcc::number::parse_number(&row.episodes_seen).unwrap();
        let back = load_show(row.name, season, episodes, row.category).unwrap();
        assert_eq!(back.name(), show.name());
        assert_eq!(back.season_number, show.season_number);
        assert_eq!(back.episodes_seen, show.episodes_seen);
        assert_eq!(back.category, show.category);
    }
}
