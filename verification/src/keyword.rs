//! Documentation records, and the table that holds one record per keyword.

use vstd::prelude::*;

verus! {

/// The documentation of one keyword.
#[derive(Clone, Debug)]
pub struct KeywordInfo {
    /// The formatted description.
    pub documentation: String,
    /// The kind of snippet that the keyword expands to; the parser leaves it empty.
    pub snippet_type: String,
}

/// What a `KeywordInfo` holds, as sequences of characters.
pub struct KeywordInfoView {
    pub documentation: Seq<char>,
    pub snippet_type: Seq<char>,
}

impl View for KeywordInfo {
    type V = KeywordInfoView;

    open spec fn view(&self) -> KeywordInfoView {
        KeywordInfoView { documentation: self.documentation@, snippet_type: self.snippet_type@ }
    }
}

/// A keyword together with its documentation.
pub struct Record {
    pub key: Seq<char>,
    pub info: KeywordInfoView,
}

/// The table that results from entering `records` one after the other: of several records
/// with one key, the last is kept.
pub open spec fn docs_of(records: Seq<Record>) -> Map<Seq<char>, KeywordInfoView>
    decreases records.len(),
{
    if records.len() == 0 {
        Map::empty()
    } else {
        docs_of(records.drop_last()).insert(records.last().key, records.last().info)
    }
}

/// Whether some record of `records` has the key `key`.
pub open spec fn has_key(records: Seq<Record>, key: Seq<char>) -> bool {
    exists|i: int| 0 <= i < records.len() && #[trigger] records[i].key == key
}

/// The table holds exactly the keys of the records that were entered.
pub proof fn lemma_docs_keys(records: Seq<Record>, key: Seq<char>)
    ensures
        docs_of(records).contains_key(key) <==> has_key(records, key),
    decreases records.len(),
{
    if records.len() > 0 {
        let front = records.drop_last();
        lemma_docs_keys(front, key);
        if has_key(front, key) {
            let i = choose|i: int| 0 <= i < front.len() && #[trigger] front[i].key == key;
            assert(records[i].key == key);
        }
        if has_key(records, key) && records.last().key != key {
            let i = choose|i: int| 0 <= i < records.len() && #[trigger] records[i].key == key;
            assert(front[i].key == key);
        }
        assert(records[records.len() - 1].key == records.last().key);
    }
}

/// The last record entered for a key wins: a record that no later record overrides is the
/// one the table holds for its key.
pub proof fn lemma_last_record_wins(records: Seq<Record>, i: int)
    requires
        0 <= i < records.len(),
        forall|j: int| i < j < records.len() ==> #[trigger] records[j].key != records[i].key,
    ensures
        docs_of(records).contains_key(records[i].key),
        docs_of(records)[records[i].key] == records[i].info,
    decreases records.len(),
{
    if i < records.len() - 1 {
        let front = records.drop_last();
        assert(records[records.len() - 1].key != records[i].key);
        assert forall|j: int| i < j < front.len() implies #[trigger] front[j].key
            != front[i].key by {
            assert(records[j].key != records[i].key);
        }
        lemma_last_record_wins(front, i);
    }
}

/// The records that `entries` stand for, in the same order.
pub open spec fn records_of(entries: Seq<(String, KeywordInfo)>) -> Seq<Record> {
    entries.map_values(|entry: (String, KeywordInfo)| Record { key: entry.0@, info: entry.1@ })
}

/// Whether no two records of `records` share a key.
pub open spec fn distinct_keys(records: Seq<Record>) -> bool {
    forall|i: int, j: int|
        0 <= i < j < records.len() ==> (#[trigger] records[i]).key != (#[trigger] records[j]).key
}

proof fn lemma_docs_replace(records: Seq<Record>, i: int, info: KeywordInfoView)
    requires
        0 <= i < records.len(),
        distinct_keys(records),
    ensures
        docs_of(records.update(i, Record { key: records[i].key, info })) == docs_of(
            records,
        ).insert(records[i].key, info),
    decreases records.len(),
{
    let key = records[i].key;
    let replaced = records.update(i, Record { key, info });
    let front = records.drop_last();
    if i == records.len() - 1 {
        assert(replaced.drop_last() == front);
        assert(docs_of(replaced) == docs_of(records).insert(key, info));
    } else {
        let last = records.last();
        assert(records[i].key != records[records.len() - 1].key);
        assert(distinct_keys(front)) by {
            assert forall|a: int, b: int| 0 <= a < b < front.len() implies (#[trigger] front[a]).key
                != (#[trigger] front[b]).key by {
                assert(records[a].key != records[b].key);
            }
        }
        lemma_docs_replace(front, i, info);
        assert(replaced.drop_last() == front.update(i, Record { key, info }));
        assert(replaced.last() == last);
        assert(docs_of(replaced) == docs_of(records).insert(key, info));
    }
}

proof fn lemma_docs_len(records: Seq<Record>)
    requires
        distinct_keys(records),
    ensures
        docs_of(records).dom().finite(),
        docs_of(records).len() == records.len(),
    decreases records.len(),
{
    if records.len() > 0 {
        let front = records.drop_last();
        assert(distinct_keys(front)) by {
            assert forall|a: int, b: int| 0 <= a < b < front.len() implies (#[trigger] front[a]).key
                != (#[trigger] front[b]).key by {
                assert(records[a].key != records[b].key);
            }
        }
        lemma_docs_len(front);
        lemma_docs_keys(front, records.last().key);
        if has_key(front, records.last().key) {
            let i = choose|i: int|
                0 <= i < front.len() && #[trigger] front[i].key == records.last().key;
            assert(records[i].key != records[records.len() - 1].key);
        }
    }
}

/// A table from keyword to documentation that holds each keyword once.
pub struct KeywordMap {
    entries: Vec<(String, KeywordInfo)>,
}

impl View for KeywordMap {
    type V = Map<Seq<char>, KeywordInfoView>;

    closed spec fn view(&self) -> Map<Seq<char>, KeywordInfoView> {
        docs_of(records_of(self.entries@))
    }
}

impl KeywordMap {
    #[verifier::type_invariant]
    spec fn keys_are_distinct(&self) -> bool {
        distinct_keys(records_of(self.entries@))
    }

    /// An empty table.
    pub fn new() -> (table: KeywordMap)
        ensures
            table@ == Map::<Seq<char>, KeywordInfoView>::empty(),
    {
        KeywordMap { entries: Vec::new() }
    }

    fn position(&self, key: &String) -> (found: Option<usize>)
        ensures
            match found {
                Some(i) => i < self.entries.len() && self.entries[i as int].0@ == key@,
                None => !has_key(records_of(self.entries@), key@),
            },
    {
        let mut i: usize = 0;
        while i < self.entries.len()
            invariant
                i <= self.entries.len(),
                forall|j: int| 0 <= j < i ==> self.entries[j].0@ != key@,
            decreases self.entries.len() - i,
        {
            if self.entries[i].0 == *key {
                return Some(i);
            }
            i = i + 1;
        }
        None
    }

    /// Enters `info` under `key`, in place of what the table held under that key.
    pub fn insert(&mut self, key: String, info: KeywordInfo)
        ensures
            final(self)@ == old(self)@.insert(key@, info@),
    {
        proof {
            use_type_invariant(&*self);
        }
        let ghost before = records_of(self.entries@);
        let ghost record = Record { key: key@, info: info@ };
        match self.position(&key) {
            Some(i) => {
                proof {
                    lemma_docs_replace(before, i as int, info@);
                    assert(records_of(self.entries@.update(i as int, (key, info)))
                        == before.update(i as int, record));
                    assert forall|a: int, b: int|
                        0 <= a < b < before.len() implies (#[trigger] before.update(
                        i as int,
                        record,
                    )[a]).key != (#[trigger] before.update(i as int, record)[b]).key by {
                        assert(before[a].key != before[b].key);
                    }
                }
                let mut entries: Vec<(String, KeywordInfo)> = Vec::new();
                core::mem::swap(&mut self.entries, &mut entries);
                entries.set(i, (key, info));
                core::mem::swap(&mut self.entries, &mut entries);
            },
            None => {
                proof {
                    assert(records_of(self.entries@.push((key, info))) == before.push(record));
                    assert(before.push(record).drop_last() == before);
                    assert forall|a: int, b: int|
                        0 <= a < b < before.len() + 1 implies (#[trigger] before.push(
                        record,
                    )[a]).key != (#[trigger] before.push(record)[b]).key by {
                        if b < before.len() {
                            assert(before[a].key != before[b].key);
                        } else {
                            assert(before[a].key == before[a].key);
                        }
                    }
                }
                let mut entries: Vec<(String, KeywordInfo)> = Vec::new();
                core::mem::swap(&mut self.entries, &mut entries);
                entries.push((key, info));
                core::mem::swap(&mut self.entries, &mut entries);
            },
        }
    }

    /// The documentation held under `key`, if any.
    pub fn get(&self, key: &str) -> (found: Option<&KeywordInfo>)
        ensures
            match found {
                Some(info) => self@.contains_key(key@) && info@ == self@[key@],
                None => !self@.contains_key(key@),
            },
    {
        proof {
            use_type_invariant(self);
            lemma_docs_keys(records_of(self.entries@), key@);
        }
        let wanted = key.to_owned();
        match self.position(&wanted) {
            Some(i) => {
                proof {
                    let records = records_of(self.entries@);
                    assert forall|j: int| i < j < records.len() implies #[trigger] records[j].key
                        != records[i as int].key by {
                        assert(records[i as int].key != records[j].key);
                    }
                    lemma_last_record_wins(records, i as int);
                }
                Some(&self.entries[i].1)
            },
            None => None,
        }
    }

    /// Whether the table holds documentation under `key`.
    pub fn contains_key(&self, key: &str) -> (found: bool)
        ensures
            found == self@.contains_key(key@),
    {
        self.get(key).is_some()
    }

    /// The number of keywords in the table.
    pub fn len(&self) -> (len: usize)
        ensures
            self@.dom().finite(),
            len == self@.len(),
    {
        proof {
            use_type_invariant(self);
            lemma_docs_len(records_of(self.entries@));
        }
        self.entries.len()
    }

    /// Whether the table holds no keyword.
    pub fn is_empty(&self) -> (empty: bool)
        ensures
            empty == (self@ == Map::<Seq<char>, KeywordInfoView>::empty()),
    {
        proof {
            if self.entries.len() > 0 {
                let records = records_of(self.entries@);
                assert(docs_of(records).contains_key(records.last().key));
            }
        }
        self.entries.len() == 0
    }

    /// The keywords with their documentation, each keyword once.
    pub fn entries(&self) -> (entries: &Vec<(String, KeywordInfo)>)
        ensures
            distinct_keys(records_of(entries@)),
            docs_of(records_of(entries@)) == self@,
    {
        proof {
            use_type_invariant(self);
        }
        &self.entries
    }
}

} // verus!
