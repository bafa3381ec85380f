use bevy_rmmz_assets::asset::{ActorsAsset, BakedRecordNotes, RmmzAsset, SystemAsset, Table};
use bevy_rmmz_assets::data::{Actor, HasId, HasNote, Item, System};

fn actor(id: i32, name: &str) -> Actor {
    Actor { id, name: name.to_owned(), ..Default::default() }
}

#[test]
fn table_indexes_by_one_based_id_and_skips_gaps() {
    let raw: Vec<Option<Actor>> = vec![None, Some(actor(1, "A")), None, Some(actor(3, "C"))];
    let t = ActorsAsset::from_raw(raw);
    assert!(t.get(0).is_none());
    assert_eq!(t.get(1).unwrap().name, "A");
    assert!(t.get(2).is_none());
    assert_eq!(t.get(3).unwrap().name, "C");
    assert!(t.get(4).is_none());
    assert_eq!(t.iter().len(), 2);
    assert_eq!(t.count(), 2);
    assert_eq!(t.records().len(), 4); // raw slots, including the null gaps
    assert!(!t.is_empty());
    assert!(t.baked().is_none());
}

#[test]
fn empty_table_reports_zero_records() {
    // The leading null must not be mistaken for a record.
    let raw: Vec<Option<Actor>> = vec![None];
    let t = ActorsAsset::from_raw(raw);
    assert_eq!(t.count(), 0);
    assert!(t.is_empty());
    assert_eq!(t.records().len(), 1);
}

#[test]
fn system_asset_is_transparent() {
    let s = SystemAsset::from_raw(System { game_title: "T".to_owned(), ..Default::default() });
    assert_eq!(s.0.game_title, "T");
}

#[test]
fn has_note_reads_the_note_field() {
    let a = Actor { note: "<cls:warrior>".into(), ..Default::default() };
    assert_eq!(a.note(), "<cls:warrior>");
}

#[test]
fn has_id_reads_the_id_field() {
    let i = Item { id: 42, ..Default::default() };
    assert_eq!(i.id(), 42);
}

#[test]
fn iter_yields_present_records_in_order() {
    let t = Table::new(vec![None, Some(actor(1, "A")), None, Some(actor(3, "C")), Some(actor(4, "D"))]);
    let names: Vec<&str> = t.iter().into_iter().map(|a| a.name.as_str()).collect();
    assert_eq!(names, ["A", "C", "D"]);
    assert_eq!(t.count(), t.iter().len());
}

#[test]
fn an_empty_vector_is_an_empty_table() {
    let t: Table<Actor> = Table::new(vec![]);
    assert!(t.is_empty());
    assert!(t.get(0).is_none());
    assert!(t.get(1).is_none());
}

#[test]
fn baked_notes_can_be_attached() {
    let mut t = Table::new(vec![None, Some(actor(1, "A"))]);
    t.set_baked(vec![BakedRecordNotes { id: 1, tags: vec![("x".to_owned(), vec![1, 2])] }]);
    let baked = t.baked().expect("baked notes attached");
    assert_eq!(baked.len(), 1);
    assert_eq!(baked[0].id, 1);
    assert_eq!(baked[0].tags, vec![("x".to_owned(), vec![1u8, 2])]);
    assert_eq!(t.count(), 1);
}
