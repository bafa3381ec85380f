use std::any::TypeId;

use bevy_rmmz_assets::asset::Table;
use bevy_rmmz_assets::data::Item;
use bevy_rmmz_assets::notes::registry::NoteRegistry;
use bevy_rmmz_assets::notes::tokens::NoteTokens;
use bevy_rmmz_assets::processing::NoteBakingTransformer;

#[derive(Clone, Copy, Debug, PartialEq)]
enum P {
    Element,
}

fn ser(p: &P, t: &NoteTokens) -> Option<Vec<u8>> {
    match p {
        P::Element => t.value("element").and_then(|v| postcard::to_stdvec(&v.to_owned()).ok()),
    }
}

fn item(id: i32, name: &str, note: &str) -> Item {
    Item { id, name: name.to_owned(), note: note.to_owned(), ..Default::default() }
}

#[test]
fn transformer_bakes_only_records_with_metadata() {
    let mut reg: NoteRegistry<P> = NoteRegistry::new();
    reg.register(TypeId::of::<String>(), "element".to_owned(), P::Element);
    let transformer = NoteBakingTransformer::new(reg.baker());
    assert!(!transformer.baker().is_empty());

    let mut table = Table::new(vec![
        None,
        Some(item(1, "Ember", "<element:fire>")),
        Some(item(2, "Stone", "plain")),
        None,
        Some(item(4, "Frost", "<element:ice>")),
    ]);
    transformer.transform(&mut table, &ser);

    let baked = table.baked().expect("transform attaches baked notes");
    assert_eq!(baked.len(), 2);
    assert_eq!(baked[0].id, 1);
    assert_eq!(baked[0].tags[0].0, "element");
    assert_eq!(postcard::from_bytes::<String>(&baked[0].tags[0].1).unwrap(), "fire");
    assert_eq!(baked[1].id, 4);
    assert_eq!(postcard::from_bytes::<String>(&baked[1].tags[0].1).unwrap(), "ice");
    // Records themselves are untouched.
    assert_eq!(table.get(1).unwrap().name, "Ember");
    assert_eq!(table.count(), 3);
}

#[test]
fn transformer_with_no_parsers_bakes_nothing() {
    let reg: NoteRegistry<P> = NoteRegistry::new();
    let transformer = NoteBakingTransformer::new(reg.baker());
    let mut table = Table::new(vec![None, Some(item(1, "Ember", "<element:fire>"))]);
    transformer.transform(&mut table, &ser);
    assert_eq!(table.baked().map(|b| b.len()), Some(0));
}
