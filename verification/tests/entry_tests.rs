use depg::entry::Entry;
use std::collections::{BTreeMap, BTreeSet};

#[test]
fn test_btree() {
    let mut t: BTreeMap<Entry, BTreeSet<Entry>> = BTreeMap::new();
    let entry_1 = Entry::new("1:src/index.tsx".to_string());
    let entry_2 = Entry::new("2:app-src/index.tsx".to_string());
    let entry_3 = Entry::new("3:components/button.tsx".to_string());
    let entry_4 = Entry::new("4:utils/banner.tsx".to_string());

    // first
    let mut set1 = BTreeSet::new();
    set1.insert(entry_2.clone());

    // second
    let mut set2 = BTreeSet::new();
    set2.insert(entry_3.clone());
    set2.insert(entry_4.clone());

    t.insert(entry_1.clone(), set1);
    t.insert(entry_2.clone(), set2);

    let next = t.entry(entry_1).or_insert(BTreeSet::new());
    next.insert(entry_3.clone());
}
