//! The log-structured store: an in-memory key-to-value table that is exactly
//! the replay of an append-only log of serialized records. Mutations hand the
//! caller the record line to append durably; recovery rebuilds the table from
//! the log's bytes.

use vstd::prelude::*;
use crate::codec::{
    decode_line, encode_delete_line, encode_put_line, line_has_no_newline, lines_view, parse_line,
    spec_delete_line, spec_join_lines, spec_put_line, spec_split_lines, split_lines, Record,
    RecordModel,
};
use crate::config::{is_default_config, KlineConfig};
use crate::error::KlineError;

verus! {

/// The effect of one replayed record on the table: a put overwrites, a
/// delete removes, a malformed line changes nothing.
pub open spec fn apply_record(m: Map<Seq<u8>, Seq<u8>>, r: Option<RecordModel>) -> Map<
    Seq<u8>,
    Seq<u8>,
> {
    match r {
        Some(RecordModel::Put { key, value }) => m.insert(key, value),
        Some(RecordModel::Delete { key }) => m.remove(key),
        None => m,
    }
}

/// The table that replaying the given log lines from an empty store yields:
/// for each key, the last record wins.
pub open spec fn replay_spec(lines: Seq<Seq<u8>>) -> Map<Seq<u8>, Seq<u8>>
    decreases lines.len(),
{
    if lines.len() == 0 {
        Map::empty()
    } else {
        apply_record(replay_spec(lines.drop_last()), parse_line(lines.last()))
    }
}

proof fn lemma_replay_snoc(lines: Seq<Seq<u8>>, l: Seq<u8>)
    ensures
        replay_spec(lines.push(l)) == apply_record(replay_spec(lines), parse_line(l)),
{
    assert(lines.push(l).drop_last() =~= lines);
    assert(lines.push(l).last() == l);
}

/// The table that a sequence of entries stands for.
pub open spec fn entries_map(s: Seq<(Vec<u8>, Vec<u8>)>) -> Map<Seq<u8>, Seq<u8>>
    decreases s.len(),
{
    if s.len() == 0 {
        Map::empty()
    } else {
        entries_map(s.drop_last()).insert(s.last().0@, s.last().1@)
    }
}

/// No two entries share a key.
pub open spec fn unique_keys(s: Seq<(Vec<u8>, Vec<u8>)>) -> bool {
    forall|i: int, j: int| 0 <= i < j < s.len() ==> s[i].0@ != s[j].0@
}

proof fn lemma_entries_map_contains(s: Seq<(Vec<u8>, Vec<u8>)>, k: Seq<u8>)
    ensures
        entries_map(s).contains_key(k) <==> (exists|i: int| 0 <= i < s.len() && s[i].0@ == k),
    decreases s.len(),
{
    if s.len() > 0 {
        lemma_entries_map_contains(s.drop_last(), k);
        if s.last().0@ == k {
            assert(s[s.len() - 1].0@ == k);
        } else {
            if entries_map(s).contains_key(k) {
                let i = choose|i: int| 0 <= i < s.drop_last().len() && s.drop_last()[i].0@ == k;
                assert(s[i].0@ == k);
            }
            if exists|i: int| 0 <= i < s.len() && s[i].0@ == k {
                let i = choose|i: int| 0 <= i < s.len() && s[i].0@ == k;
                assert(i < s.len() - 1);
                assert(s.drop_last()[i].0@ == k);
            }
        }
    }
}

proof fn lemma_entries_map_at(s: Seq<(Vec<u8>, Vec<u8>)>, i: int)
    requires
        unique_keys(s),
        0 <= i < s.len(),
    ensures
        entries_map(s).contains_key(s[i].0@),
        entries_map(s)[s[i].0@] == s[i].1@,
    decreases s.len(),
{
    if i == s.len() - 1 {
    } else {
        assert(unique_keys(s.drop_last()));
        assert(s.drop_last()[i] == s[i]);
        lemma_entries_map_at(s.drop_last(), i);
        assert(s.last().0@ != s[i].0@);
    }
}

proof fn lemma_entries_map_finite(s: Seq<(Vec<u8>, Vec<u8>)>)
    ensures
        entries_map(s).dom().finite(),
    decreases s.len(),
{
    if s.len() == 0 {
        assert(entries_map(s).dom() =~= Set::<Seq<u8>>::empty());
    } else {
        lemma_entries_map_finite(s.drop_last());
        vstd::map::axiom_map_insert_domain(
            entries_map(s.drop_last()),
            s.last().0@,
            s.last().1@,
        );
        vstd::set::axiom_set_insert_finite(entries_map(s.drop_last()).dom(), s.last().0@);
    }
}

proof fn lemma_entries_map_len(s: Seq<(Vec<u8>, Vec<u8>)>)
    requires
        unique_keys(s),
    ensures
        entries_map(s).dom().finite(),
        entries_map(s).dom().len() == s.len(),
    decreases s.len(),
{
    lemma_entries_map_finite(s);
    if s.len() > 0 {
        let prefix = s.drop_last();
        assert(unique_keys(prefix));
        lemma_entries_map_len(prefix);
        lemma_entries_map_contains(prefix, s.last().0@);
        assert(forall|i: int| 0 <= i < prefix.len() ==> s[i].0@ != s.last().0@);
        assert(!entries_map(prefix).contains_key(s.last().0@));
        vstd::map::axiom_map_insert_domain(entries_map(prefix), s.last().0@, s.last().1@);
        vstd::set::axiom_set_insert_len(entries_map(prefix).dom(), s.last().0@);
    }
}

proof fn lemma_entries_map_remove(s: Seq<(Vec<u8>, Vec<u8>)>, i: int)
    requires
        unique_keys(s),
        0 <= i < s.len(),
    ensures
        unique_keys(s.remove(i)),
        entries_map(s.remove(i)) == entries_map(s).remove(s[i].0@),
    decreases s.len(),
{
    let k = s[i].0@;
    if i == s.len() - 1 {
        assert(s.remove(i) =~= s.drop_last());
        lemma_entries_map_contains(s.drop_last(), k);
        assert(forall|j: int| 0 <= j < s.drop_last().len() ==> s[j].0@ != k);
        assert(!entries_map(s.drop_last()).contains_key(k));
        assert(entries_map(s.drop_last()) =~= entries_map(s.drop_last()).insert(
            k,
            s[i].1@,
        ).remove(k));
    } else {
        let prefix = s.drop_last();
        assert(unique_keys(prefix));
        assert(prefix[i] == s[i]);
        lemma_entries_map_remove(prefix, i);
        assert(s.remove(i).drop_last() =~= prefix.remove(i));
        assert(s.remove(i).last() == s.last());
        assert(s.last().0@ != k);
        assert(entries_map(s.remove(i)) == entries_map(prefix.remove(i)).insert(
            s.last().0@,
            s.last().1@,
        ));
        assert(entries_map(prefix).remove(k).insert(s.last().0@, s.last().1@)
            =~= entries_map(prefix).insert(s.last().0@, s.last().1@).remove(k));
    }
}

/// Tells whether two byte vectors hold the same bytes.
fn bytes_eq(a: &Vec<u8>, b: &Vec<u8>) -> (r: bool)
    ensures
        r == (a@ == b@),
{
    if a.len() != b.len() {
        return false;
    }
    let mut i: usize = 0;
    while i < a.len()
        invariant
            i <= a@.len(),
            a@.len() == b@.len(),
            forall|j: int| 0 <= j < i ==> a@[j] == b@[j],
        decreases a@.len() - i,
    {
        if a[i] != b[i] {
            return false;
        }
        i = i + 1;
    }
    proof {
        assert(a@ =~= b@);
    }
    true
}

/// The index of the entry that holds `key`, if any.
fn find_key_index(entries: &Vec<(Vec<u8>, Vec<u8>)>, key: &Vec<u8>) -> (r: Option<usize>)
    ensures
        (match r {
            Some(i) => i < entries@.len() && entries@[i as int].0@ == key@,
            None => forall|i: int| 0 <= i < entries@.len() ==> entries@[i].0@ != key@,
        }),
{
    let mut i: usize = 0;
    while i < entries.len()
        invariant
            i <= entries@.len(),
            forall|j: int| 0 <= j < i ==> entries@[j].0@ != key@,
        decreases entries@.len() - i,
    {
        if bytes_eq(&entries[i].0, key) {
            return Some(i);
        }
        i = i + 1;
    }
    None
}

/// The embedded key-value store: the in-memory table, the session
/// configuration, and the model of the on-disk log that backs the table.
/// Callers own durability: every mutation hands back the serialized record
/// line to append to the log file, and recovery takes the file's bytes.
pub struct Kline {
    pub entries: Vec<(Vec<u8>, Vec<u8>)>,
    pub config: KlineConfig,
    pub log: Ghost<Seq<Seq<u8>>>,
}

impl View for Kline {
    type V = Map<Seq<u8>, Seq<u8>>;

    open spec fn view(&self) -> Map<Seq<u8>, Seq<u8>> {
        entries_map(self.entries@)
    }
}

impl Kline {
    /// The store is consistent: entry keys are unique, the table is exactly
    /// the replay of the log, and every log line is free of line terminators.
    pub open spec fn wf(self) -> bool {
        &&& unique_keys(self.entries@)
        &&& replay_spec(self.log@) == self.view()
        &&& forall|i: int| 0 <= i < self.log@.len() ==> line_has_no_newline(#[trigger] self.log@[i])
    }

    /// Opens a store from the bytes of its log file, replaying every
    /// well-formed line in order; malformed lines are skipped, never fatal.
    pub fn open_with_config(data: &Vec<u8>, config: KlineConfig) -> (store: Kline)
        ensures
            store.wf(),
            store@ == replay_spec(spec_split_lines(data@)),
            store.log@ == spec_split_lines(data@),
            store.config == config,
    {
        let lines = split_lines(data);
        let mut entries: Vec<(Vec<u8>, Vec<u8>)> = Vec::new();
        let mut idx: usize = 0;
        proof {
            assert(lines_view(lines@).subrange(0, 0) =~= Seq::<Seq<u8>>::empty());
        }
        while idx < lines.len()
            invariant
                idx <= lines@.len(),
                unique_keys(entries@),
                entries_map(entries@) == replay_spec(lines_view(lines@).subrange(0, idx as int)),
                lines_view(lines@) == spec_split_lines(data@),
                forall|i: int|
                    0 <= i < lines@.len() ==> line_has_no_newline(#[trigger] lines@[i]@),
            decreases lines@.len() - idx,
        {
            let ghost prefix = lines_view(lines@).subrange(0, idx as int);
            let ghost line_v = lines_view(lines@)[idx as int];
            proof {
                assert(line_v == lines@[idx as int]@);
                assert(lines_view(lines@).subrange(0, idx + 1) =~= prefix.push(line_v));
                lemma_replay_snoc(prefix, line_v);
            }
            match decode_line(&lines[idx]) {
                Some(rec) => match rec {
                    Record::Put { key, value } => {
                        apply_put_to_entries(&mut entries, key, value);
                    },
                    Record::Delete { key } => {
                        apply_delete_to_entries(&mut entries, &key);
                    },
                },
                None => {},
            }
            idx = idx + 1;
        }
        proof {
            assert(lines_view(lines@).subrange(0, lines@.len() as int) =~= lines_view(lines@));
        }
        Kline { entries, config, log: Ghost(spec_split_lines(data@)) }
    }

    /// Opens a store from the bytes of its log file with the default
    /// configuration.
    pub fn open(data: &Vec<u8>) -> (store: Kline)
        ensures
            store.wf(),
            store@ == replay_spec(spec_split_lines(data@)),
            store.log@ == spec_split_lines(data@),
            is_default_config(store.config),
    {
        Kline::open_with_config(data, KlineConfig::default())
    }

    /// A put of `key` to `value` is admitted: both fit their size ceilings,
    /// and the key is either already present or there is room for one more.
    pub open spec fn put_admitted(self, key: Seq<u8>, value: Seq<u8>) -> bool {
        &&& key.len() <= self.config.limits.max_key_size
        &&& value.len() <= self.config.limits.max_value_size
        &&& (self@.contains_key(key) || self@.dom().len() < self.config.limits.max_keys)
    }

    /// The exact error a rejected put reports, each variant tied to the
    /// condition that produces it and to no other.
    pub open spec fn put_error(self, key: Seq<u8>, value: Seq<u8>, e: KlineError) -> bool {
        match e {
            KlineError::KeyTooLarge { size, max } => {
                &&& key.len() > self.config.limits.max_key_size
                &&& size == key.len()
                &&& max == self.config.limits.max_key_size
            },
            KlineError::ValueTooLarge { size, max } => {
                &&& key.len() <= self.config.limits.max_key_size
                &&& value.len() > self.config.limits.max_value_size
                &&& size == value.len()
                &&& max == self.config.limits.max_value_size
            },
            KlineError::DatabaseFull { current, max } => {
                &&& key.len() <= self.config.limits.max_key_size
                &&& value.len() <= self.config.limits.max_value_size
                &&& !self@.contains_key(key)
                &&& self@.dom().len() >= self.config.limits.max_keys
                &&& current == self@.dom().len()
                &&& max == self.config.limits.max_keys
            },
            _ => false,
        }
    }

    /// Validates a put against the ceilings and serializes its record line
    /// without touching the store: a rejected put has no effect at all.
    pub fn prepare_put(&self, key: &Vec<u8>, value: &Vec<u8>) -> (r: Result<Vec<u8>, KlineError>)
        requires
            self.wf(),
        ensures
            (match r {
                Ok(line) => {
                    &&& self.put_admitted(key@, value@)
                    &&& line@ == spec_put_line(key@, value@)
                    &&& parse_line(line@) == Some(
                        RecordModel::Put { key: key@, value: value@ },
                    )
                    &&& line_has_no_newline(line@)
                },
                Err(e) => self.put_error(key@, value@, e),
            }),
    {
        if key.len() > self.config.limits.max_key_size {
            return Err(
                KlineError::KeyTooLarge { size: key.len(), max: self.config.limits.max_key_size },
            );
        }
        if value.len() > self.config.limits.max_value_size {
            return Err(
                KlineError::ValueTooLarge {
                    size: value.len(),
                    max: self.config.limits.max_value_size,
                },
            );
        }
        proof {
            lemma_entries_map_len(self.entries@);
            lemma_entries_map_contains(self.entries@, key@);
        }
        let present = find_key_index(&self.entries, key).is_some();
        if !present && self.entries.len() >= self.config.limits.max_keys {
            return Err(
                KlineError::DatabaseFull {
                    current: self.entries.len(),
                    max: self.config.limits.max_keys,
                },
            );
        }
        Ok(encode_put_line(key, value))
    }

    /// Applies a put whose record line has already been appended durably to
    /// the log: overwrites the key's value and extends the log model by that
    /// line. The caller hands the line back exactly as `prepare_put` built
    /// it, which is what its `requires` states.
    pub fn apply_put(&mut self, key: Vec<u8>, value: Vec<u8>, line: &Vec<u8>)
        requires
            old(self).wf(),
            parse_line(line@) == Some(RecordModel::Put { key: key@, value: value@ }),
            line_has_no_newline(line@),
        ensures
            final(self).wf(),
            final(self)@ == old(self)@.insert(key@, value@),
            final(self).log@ == old(self).log@ + seq![line@],
            final(self).config == old(self).config,
    {
        proof {
            lemma_replay_snoc(self.log@, line@);
        }
        let ghost kv = key@;
        let ghost vv = value@;
        apply_put_to_entries(&mut self.entries, key, value);
        proof {
            self.log@ = self.log@.push(line@);
            assert(self.log@ =~= old(self).log@ + seq![line@]);
            assert(self.log@.drop_last() =~= old(self).log@);
        }
    }

    /// Stores `value` under `key`: validates against the ceilings, appends a
    /// put record to the log model, and overwrites the table entry. Returns
    /// the serialized record line the caller must append durably to the log
    /// file; a rejected put reports its exact error and changes nothing.
    pub fn put(&mut self, key: Vec<u8>, value: Vec<u8>) -> (r: Result<Vec<u8>, KlineError>)
        requires
            old(self).wf(),
        ensures
            final(self).wf(),
            final(self).config == old(self).config,
            (match r {
                Ok(line) => {
                    &&& old(self).put_admitted(key@, value@)
                    &&& final(self)@ == old(self)@.insert(key@, value@)
                    &&& final(self).log@ == old(self).log@ + seq![line@]
                    &&& line@ == spec_put_line(key@, value@)
                },
                Err(e) => {
                    &&& old(self).put_error(key@, value@, e)
                    &&& *final(self) == *old(self)
                },
            }),
    {
        let line = match self.prepare_put(&key, &value) {
            Ok(line) => line,
            Err(e) => {
                return Err(e);
            },
        };
        self.apply_put(key, value, &line);
        Ok(line)
    }

    /// Serializes the record line of a delete without touching the store.
    /// Deletes are never rejected: deleting an absent key is logged too.
    pub fn prepare_delete(&self, key: &Vec<u8>) -> (line: Vec<u8>)
        ensures
            line@ == spec_delete_line(key@),
            parse_line(line@) == Some(RecordModel::Delete { key: key@ }),
            line_has_no_newline(line@),
    {
        encode_delete_line(key)
    }

    /// Applies a delete whose record line has already been appended durably
    /// to the log: removes the key if present — removing an absent key
    /// leaves the table as it was — and extends the log model by that line.
    /// The caller hands the line back exactly as `prepare_delete` built it.
    pub fn apply_delete(&mut self, key: &Vec<u8>, line: &Vec<u8>)
        requires
            old(self).wf(),
            parse_line(line@) == Some(RecordModel::Delete { key: key@ }),
            line_has_no_newline(line@),
        ensures
            final(self).wf(),
            final(self)@ == old(self)@.remove(key@),
            !old(self)@.contains_key(key@) ==> final(self)@ == old(self)@,
            final(self).log@ == old(self).log@ + seq![line@],
            final(self).config == old(self).config,
    {
        proof {
            lemma_replay_snoc(self.log@, line@);
        }
        apply_delete_to_entries(&mut self.entries, key);
        proof {
            self.log@ = self.log@.push(line@);
            assert(self.log@ =~= old(self).log@ + seq![line@]);
            assert(self.log@.drop_last() =~= old(self).log@);
            if !old(self)@.contains_key(key@) {
                assert(old(self)@.remove(key@) =~= old(self)@);
            }
        }
    }

    /// Removes `key`: appends a delete record to the log model and drops the
    /// table entry if one exists. Deleting an absent key succeeds and leaves
    /// the table unchanged. Returns the serialized record line the caller
    /// must append durably to the log file.
    pub fn delete(&mut self, key: &Vec<u8>) -> (line: Vec<u8>)
        requires
            old(self).wf(),
        ensures
            final(self).wf(),
            final(self)@ == old(self)@.remove(key@),
            !old(self)@.contains_key(key@) ==> final(self)@ == old(self)@,
            final(self).log@ == old(self).log@ + seq![line@],
            line@ == spec_delete_line(key@),
            final(self).config == old(self).config,
    {
        let line = self.prepare_delete(key);
        self.apply_delete(key, &line);
        line
    }

    /// Looks `key` up in the table; a pure read that never touches the log.
    pub fn get(&self, key: &Vec<u8>) -> (r: Option<Vec<u8>>)
        requires
            self.wf(),
        ensures
            (match r {
                Some(v) => self@.contains_key(key@) && v@ == self@[key@],
                None => !self@.contains_key(key@),
            }),
    {
        match find_key_index(&self.entries, key) {
            Some(i) => {
                proof {
                    lemma_entries_map_at(self.entries@, i as int);
                }
                let entry = &self.entries[i];
                let v = crate::codec::vec_subrange(&entry.1, 0, entry.1.len());
                proof {
                    assert(v@ =~= self.entries@[i as int].1@);
                }
                Some(v)
            },
            None => {
                proof {
                    lemma_entries_map_contains(self.entries@, key@);
                }
                None
            },
        }
    }

    /// A snapshot of the current keys, order unspecified: one copy of each
    /// key of the table and nothing else.
    pub fn keys(&self) -> (r: Vec<Vec<u8>>)
        requires
            self.wf(),
        ensures
            r@.len() == self@.dom().len(),
            forall|i: int| 0 <= i < r@.len() ==> self@.contains_key(#[trigger] r@[i]@),
            forall|k: Seq<u8>|
                self@.contains_key(k) ==> exists|i: int| 0 <= i < r@.len() && r@[i]@ == k,
            forall|i: int, j: int| 0 <= i < j < r@.len() ==> r@[i]@ != r@[j]@,
    {
        proof {
            lemma_entries_map_len(self.entries@);
        }
        let mut r: Vec<Vec<u8>> = Vec::new();
        let mut i: usize = 0;
        while i < self.entries.len()
            invariant
                i <= self.entries@.len(),
                r@.len() == i,
                forall|j: int| 0 <= j < i ==> r@[j]@ == self.entries@[j].0@,
            decreases self.entries@.len() - i,
        {
            let entry = &self.entries[i];
            let k = crate::codec::vec_subrange(&entry.0, 0, entry.0.len());
            proof {
                assert(k@ =~= self.entries@[i as int].0@);
            }
            r.push(k);
            i = i + 1;
        }
        proof {
            assert(forall|j: int| 0 <= j < r@.len() ==> self@.contains_key(#[trigger] r@[j]@))
                by {
                assert forall|j: int| 0 <= j < r@.len() implies self@.contains_key(
                    #[trigger] r@[j]@,
                ) by {
                    lemma_entries_map_at(self.entries@, j);
                }
            }
            assert forall|k: Seq<u8>| self@.contains_key(k) implies exists|j: int|
                0 <= j < r@.len() && r@[j]@ == k by {
                lemma_entries_map_contains(self.entries@, k);
                let j = choose|j: int| 0 <= j < self.entries@.len() && self.entries@[j].0@ == k;
                assert(r@[j]@ == k);
            }
        }
        r
    }

    /// Rewrites the log model to its minimal form: exactly one put record per
    /// live key, no deletes and no stale overwrites. The table, and so every
    /// `get` and `keys` result, is unchanged. Returns the record lines of the
    /// rewritten log for the caller to write to a fresh file and move over
    /// the live log path atomically.
    pub fn compact(&mut self) -> (lines: Vec<Vec<u8>>)
        requires
            old(self).wf(),
        ensures
            final(self).wf(),
            final(self)@ == old(self)@,
            final(self).entries@ == old(self).entries@,
            final(self).config == old(self).config,
            final(self).log@ == lines_view(lines@),
            replay_spec(lines_view(lines@)) == old(self)@,
            lines@.len() == old(self)@.dom().len(),
            forall|i: int|
                0 <= i < lines@.len() ==> #[trigger] lines@[i]@ == spec_put_line(
                    old(self).entries@[i].0@,
                    old(self).entries@[i].1@,
                ),
            forall|i: int| 0 <= i < lines@.len() ==> line_has_no_newline(#[trigger] lines@[i]@),
    {
        proof {
            lemma_entries_map_len(self.entries@);
        }
        let mut lines: Vec<Vec<u8>> = Vec::new();
        let mut i: usize = 0;
        proof {
            assert(lines_view(lines@) =~= Seq::<Seq<u8>>::empty());
            assert(self.entries@.subrange(0, 0) =~= Seq::<(Vec<u8>, Vec<u8>)>::empty());
        }
        while i < self.entries.len()
            invariant
                i <= self.entries@.len(),
                lines@.len() == i,
                replay_spec(lines_view(lines@)) == entries_map(
                    self.entries@.subrange(0, i as int),
                ),
                forall|j: int|
                    0 <= j < lines@.len() ==> #[trigger] lines@[j]@ == spec_put_line(
                        self.entries@[j].0@,
                        self.entries@[j].1@,
                    ),
                forall|j: int|
                    0 <= j < lines@.len() ==> line_has_no_newline(#[trigger] lines@[j]@),
            decreases self.entries@.len() - i,
        {
            let ghost prefix_lines = lines_view(lines@);
            let entry = &self.entries[i];
            let line = encode_put_line(&entry.0, &entry.1);
            proof {
                lemma_replay_snoc(prefix_lines, line@);
            }
            lines.push(line);
            proof {
                assert(lines_view(lines@) =~= prefix_lines.push(line@));
                assert(self.entries@.subrange(0, i + 1) =~= self.entries@.subrange(
                    0,
                    i as int,
                ).push(self.entries@[i as int]));
                assert(self.entries@.subrange(0, i + 1).drop_last() =~= self.entries@.subrange(
                    0,
                    i as int,
                ));
            }
            i = i + 1;
        }
        proof {
            assert(self.entries@.subrange(0, self.entries@.len() as int) =~= self.entries@);
            self.log@ = lines_view(lines@);
        }
        lines
    }

    /// Discards every entry and rewrites the log model to empty: the one
    /// administrative operation that loses data on purpose. Returns the (empty)
    /// record lines of the rewritten log for the same atomic move as `compact`.
    pub fn clear(&mut self) -> (lines: Vec<Vec<u8>>)
        requires
            old(self).wf(),
        ensures
            final(self).wf(),
            final(self)@ == Map::<Seq<u8>, Seq<u8>>::empty(),
            final(self).log@ == Seq::<Seq<u8>>::empty(),
            lines@.len() == 0,
            final(self).config == old(self).config,
    {
        self.entries = Vec::new();
        proof {
            self.log@ = Seq::empty();
        }
        Vec::new()
    }
}

/// Reopening a store from the bytes of its own log yields the very table it
/// held: the log is always a faithful durable image of the store.
pub proof fn lemma_log_round_trip(store: Kline)
    requires
        store.wf(),
    ensures
        replay_spec(spec_split_lines(spec_join_lines(store.log@))) == store@,
{
    crate::codec::lemma_split_join(store.log@);
}

/// Last write wins: whatever log a store has, appending a put of `k`, a
/// second put of `k`, a delete of `k` and a final put of `k` to `v3`, in that
/// order, makes replay map `k` to `v3`.
pub proof fn lemma_last_write_wins(
    base: Seq<Seq<u8>>,
    l1: Seq<u8>,
    l2: Seq<u8>,
    l3: Seq<u8>,
    l4: Seq<u8>,
    k: Seq<u8>,
    v1: Seq<u8>,
    v2: Seq<u8>,
    v3: Seq<u8>,
)
    requires
        parse_line(l1) == Some(RecordModel::Put { key: k, value: v1 }),
        parse_line(l2) == Some(RecordModel::Put { key: k, value: v2 }),
        parse_line(l3) == Some(RecordModel::Delete { key: k }),
        parse_line(l4) == Some(RecordModel::Put { key: k, value: v3 }),
    ensures
        replay_spec(base + seq![l1, l2, l3, l4]).contains_key(k),
        replay_spec(base + seq![l1, l2, l3, l4])[k] == v3,
{
    let s3 = base + seq![l1, l2, l3];
    lemma_replay_snoc(s3, l4);
    assert(s3.push(l4) =~= base + seq![l1, l2, l3, l4]);
}


/// Overwrites or inserts the entry for `key`, keeping keys unique.
fn apply_put_to_entries(entries: &mut Vec<(Vec<u8>, Vec<u8>)>, key: Vec<u8>, value: Vec<u8>)
    requires
        unique_keys(old(entries)@),
    ensures
        unique_keys(final(entries)@),
        entries_map(final(entries)@) == entries_map(old(entries)@).insert(key@, value@),
{
    match find_key_index(entries, &key) {
        Some(i) => {
            proof {
                lemma_entries_map_remove(entries@, i as int);
            }
            let ghost removed = entries@.remove(i as int);
            entries.remove(i);
            proof {
                assert(entries@ == removed);
                lemma_entries_map_contains(removed, key@);
                assert(forall|j: int| 0 <= j < removed.len() ==> removed[j].0@ != key@) by {
                    assert(forall|j: int|
                        0 <= j < removed.len() ==> removed[j] == if j < i {
                            old(entries)@[j]
                        } else {
                            old(entries)@[j + 1]
                        });
                }
            }
            let ghost before_push = entries@;
            entries.push((key, value));
            proof {
                assert(entries@.drop_last() =~= before_push);
                assert(entries_map(entries@) == entries_map(before_push).insert(key@, value@));
                assert(entries_map(before_push).insert(key@, value@) =~= entries_map(
                    old(entries)@,
                ).insert(key@, value@));
                assert(forall|a: int, b: int|
                    0 <= a < b < entries@.len() ==> entries@[a].0@ != entries@[b].0@);
            }
        },
        None => {
            let ghost before_push = entries@;
            entries.push((key, value));
            proof {
                assert(entries@.drop_last() =~= before_push);
                assert(forall|a: int, b: int|
                    0 <= a < b < entries@.len() ==> entries@[a].0@ != entries@[b].0@);
            }
        },
    }
}

/// Removes the entry for `key` if one exists; removing an absent key is a
/// no-op.
fn apply_delete_to_entries(entries: &mut Vec<(Vec<u8>, Vec<u8>)>, key: &Vec<u8>)
    requires
        unique_keys(old(entries)@),
    ensures
        unique_keys(final(entries)@),
        entries_map(final(entries)@) == entries_map(old(entries)@).remove(key@),
{
    match find_key_index(entries, key) {
        Some(i) => {
            proof {
                lemma_entries_map_remove(entries@, i as int);
            }
            entries.remove(i);
        },
        None => {
            proof {
                lemma_entries_map_contains(entries@, key@);
                assert(entries_map(entries@) =~= entries_map(entries@).remove(key@));
            }
        },
    }
}

} // verus!
