//! The offset journal: an in-memory map from `(topic, partition)` to the
//! last produced offset, loadable from and flushable to one file per
//! key. The file for `(topic, partition)` is named `topic.partition` and
//! holds the decimal offset; reading and writing the files themselves
//! happens outside the library, which only receives and hands out
//! `(name, contents)` pairs.
use vstd::prelude::*;
use vstd::string::StrSliceExecFns;
use crate::strutil::{spec_parse_i64, spec_i64_string, spec_u64_string, parse_i64,
    i64_to_string, i32_to_string, lemma_decimal_round_trip};
use crate::MessageOffset;

verus! {

/// A journal key: topic name and partition number.
#[derive(Debug)]
pub struct OffsetKey(pub String, pub i32);

impl View for OffsetKey {
    type V = (Seq<char>, int);

    open spec fn view(&self) -> (Seq<char>, int) {
        (self.0@, self.1 as int)
    }
}

impl OffsetKey {
    /// An equal copy of this key.
    pub fn duplicate(&self) -> (r: OffsetKey)
        ensures
            r@ == self@,
    {
        OffsetKey(self.0.clone(), self.1)
    }
}

/// The key encoded by a journal file name: the text before the last
/// `.` is the topic, the text after it the partition number.
pub open spec fn spec_file_name_key(name: Seq<char>) -> Option<(Seq<char>, int)> {
    match last_dot(name) {
        Some(d) => {
            let topic = name.subrange(0, d);
            let part = name.subrange(d + 1, name.len() as int);
            match spec_parse_i64(part) {
                Some(p) => if i32::MIN <= p <= i32::MAX {
                    Some((topic, p as int))
                } else {
                    None
                },
                None => None,
            }
        },
        None => None,
    }
}

/// Position of the last `.` in `name`, if any.
pub open spec fn last_dot(name: Seq<char>) -> Option<int>
    decreases name.len(),
{
    if name.len() == 0 {
        None
    } else if name[name.len() - 1] == '.' {
        Some(name.len() - 1)
    } else {
        last_dot(name.drop_last())
    }
}

/// Parses a journal file name `topic.partition` into its key.
pub fn file_name_to_offset_key(name: &str) -> (r: Option<OffsetKey>)
    ensures
        match r {
            Some(k) => spec_file_name_key(name@) == Some(k@),
            None => spec_file_name_key(name@) is None,
        },
{
    let n = name.unicode_len();
    proof {
        assert(name@.subrange(0, n as int) =~= name@);
    }
    let mut i: usize = n;
    while i > 0
        invariant
            n == name@.len(),
            i <= n,
            last_dot(name@) == last_dot(name@.subrange(0, i as int)),
        decreases i,
    {
        proof {
            assert(name@.subrange(0, i as int).drop_last()
                =~= name@.subrange(0, i as int - 1));
        }
        if name.get_char(i - 1) == '.' {
            let d = i - 1;
            proof {
                assert(last_dot(name@) == Some(d as int));
            }
            let part = name.substring_char(d + 1, n);
            match parse_i64(part) {
                Some(p) => {
                    if p >= i32::MIN as i64 && p <= i32::MAX as i64 {
                        let topic = name.substring_char(0, d);
                        return Some(OffsetKey(String::from_str(topic), p as i32));
                    } else {
                        return None;
                    }
                },
                None => {
                    return None;
                },
            }
        }
        i = i - 1;
    }
    proof {
        assert(name@.subrange(0, 0) =~= Seq::<char>::empty());
        assert(last_dot(name@) is None);
    }
    None
}

/// The journal file for one entry: name `topic.partition`, contents the
/// decimal offset.
pub open spec fn entry_file(key: (Seq<char>, int), offset: int) -> (Seq<char>, Seq<char>) {
    (key.0 + seq!['.'] + spec_i64_string(key.1), spec_i64_string(offset))
}

/// The map encoded by a list of journal files, later entries winning;
/// files whose name or contents do not parse are skipped.
pub open spec fn files_map(files: Seq<(Seq<char>, Seq<char>)>) -> Map<(Seq<char>, int), int>
    decreases files.len(),
{
    if files.len() == 0 {
        Map::empty()
    } else {
        let m = files_map(files.drop_last());
        let f = files.last();
        match spec_file_name_key(f.0) {
            Some(k) => match spec_parse_i64(f.1) {
                Some(off) => m.insert(k, off as int),
                None => m,
            },
            None => m,
        }
    }
}

/// The map held by a list of journal entries, later entries winning.
pub open spec fn entries_map(entries: Seq<((Seq<char>, int), int)>) -> Map<
    (Seq<char>, int),
    int,
>
    decreases entries.len(),
{
    if entries.len() == 0 {
        Map::empty()
    } else {
        entries_map(entries.drop_last()).insert(entries.last().0, entries.last().1)
    }
}

/// View of the entry vector of a holder.
pub open spec fn entries_view(entries: Seq<(OffsetKey, i64)>) -> Seq<((Seq<char>, int), int)> {
    entries.map_values(|e: (OffsetKey, i64)| (e.0@, e.1 as int))
}

/// Holds the per-partition offsets between flushes.
pub struct MessageOffsetHolder {
    journal_enabled: bool,
    journal_dir: String,
    entries: Vec<(OffsetKey, i64)>,
}

impl MessageOffsetHolder {
    /// The entries currently held, keys and offsets as spec values.
    pub closed spec fn entry_list(self) -> Seq<((Seq<char>, int), int)> {
        entries_view(self.entries@)
    }

    /// The offsets currently held, as a map.
    pub open spec fn offsets_map(self) -> Map<(Seq<char>, int), int> {
        entries_map(self.entry_list())
    }

    /// Whether the journal persists anything.
    pub closed spec fn enabled(self) -> bool {
        self.journal_enabled
    }

    /// The configured journal directory.
    pub closed spec fn dir(self) -> Seq<char> {
        self.journal_dir@
    }

    /// No two entries share a key.
    pub closed spec fn wf(self) -> bool {
        forall|i: int, j: int| 0 <= i < j < self.entries@.len()
            ==> (#[trigger] self.entries@[i]).0@ != (#[trigger] self.entries@[j]).0@
    }

    /// A journal over `journal_dir`, seeded from the directory's files
    /// when enabled: each is parsed as `topic.partition` with a decimal
    /// offset inside, and unreadable ones are skipped.
    pub fn new(journal_dir: String, enabled: bool, stored: Vec<(String, String)>) -> (r:
        MessageOffsetHolder)
        ensures
            r.enabled() == enabled,
            r.dir() == journal_dir@,
            r.wf(),
            enabled ==> r.offsets_map() == files_map(
                stored@.map_values(|f: (String, String)| (f.0@, f.1@)),
            ),
            !enabled ==> r.offsets_map() == Map::<(Seq<char>, int), int>::empty(),
    {
        let ghost dir_name = journal_dir@;
        let mut holder = MessageOffsetHolder {
            journal_enabled: enabled,
            journal_dir,
            entries: Vec::new(),
        };
        if !enabled {
            return holder;
        }
        let n = stored.len();
        let mut i: usize = 0;
        while i < n
            invariant
                n == stored@.len(),
                i <= n,
                holder.journal_enabled,
                holder.dir() == dir_name,
                holder.wf(),
                entries_map(entries_view(holder.entries@)) == files_map(
                    stored@.map_values(|f: (String, String)| (f.0@, f.1@)).subrange(0, i as int),
                ),
            decreases n - i,
        {
            let ghost fs = stored@.map_values(|f: (String, String)| (f.0@, f.1@));
            proof {
                assert(fs.subrange(0, i as int + 1).drop_last()
                    =~= fs.subrange(0, i as int));
                assert(fs.subrange(0, i as int + 1).last() == fs[i as int]);
            }
            match file_name_to_offset_key(stored[i].0.as_str()) {
                Some(key) => {
                    match parse_i64(stored[i].1.as_str()) {
                        Some(off) => {
                            holder.upsert(key, off);
                        },
                        None => {},
                    }
                },
                None => {},
            }
            i = i + 1;
        }
        proof {
            let fs = stored@.map_values(|f: (String, String)| (f.0@, f.1@));
            assert(fs.subrange(0, n as int) =~= fs);
        }
        holder
    }

    /// Puts one offset into the entry vector, replacing the entry with
    /// the same key if one is there.
    #[verifier::loop_isolation(false)]
    fn upsert(&mut self, key: OffsetKey, offset: i64)
        requires
            old(self).wf(),
        ensures
            final(self).wf(),
            final(self).offsets_map() == old(self).offsets_map().insert(key@, offset as int),
            final(self).enabled() == old(self).enabled(),
            final(self).dir() == old(self).dir(),
    {
        let n = self.entries.len();
        let mut j: usize = 0;
        while j < n
            invariant
                n == self.entries@.len(),
                j <= n,
                *self == *old(self),
                forall|m: int| 0 <= m < j ==> (#[trigger] self.entries@[m]).0@ != key@,
            decreases n - j,
        {
            if crate::strutil::str_eq(self.entries[j].0.0.as_str(), key.0.as_str())
                && self.entries[j].0.1 == key.1 {
                proof {
                    assert(self.entries@[j as int].0@ == key@);
                }
                let ghost old_entries = self.entries@;
                self.entries.set(j, (key, offset));
                proof {
                    assert(old_entries == old(self).entries@);
                    assert forall|a: int, b: int|
                        0 <= a < b < entries_view(old_entries).len() implies
                        (#[trigger] entries_view(old_entries)[a]).0
                            != (#[trigger] entries_view(old_entries)[b]).0 by {
                        assert((old(self).entries@[a]).0@ != (old(self).entries@[b]).0@);
                        assert(entries_view(old_entries)[a] == (old_entries[a].0@,
                            old_entries[a].1 as int));
                        assert(entries_view(old_entries)[b] == (old_entries[b].0@,
                            old_entries[b].1 as int));
                    }
                    lemma_entries_map_set(entries_view(old_entries), j as int,
                        (key@, offset as int));
                    assert(entries_view(self.entries@)
                        =~= entries_view(old_entries).update(j as int, (key@, offset as int)));
                    assert(entries_view(old_entries)[j as int].0 == key@);
                    assert forall|a: int, b: int| 0 <= a < b < self.entries@.len() implies
                        (#[trigger] self.entries@[a]).0@
                            != (#[trigger] self.entries@[b]).0@ by {
                        assert((old(self).entries@[a]).0@ != (old(self).entries@[b]).0@);
                    }
                }
                return;
            }
            j = j + 1;
        }
        let ghost old_entries = self.entries@;
        self.entries.push((key, offset));
        proof {
            assert(entries_view(self.entries@)
                =~= entries_view(old_entries).push((key@, offset as int)));
            assert(entries_view(self.entries@).drop_last() =~= entries_view(old_entries));
            assert(entries_view(self.entries@).last() == (key@, offset as int));
            assert forall|a: int, b: int| 0 <= a < b < self.entries@.len() implies
                (#[trigger] self.entries@[a]).0@ != (#[trigger] self.entries@[b]).0@ by {
                if b < self.entries@.len() - 1 {
                    assert((old(self).entries@[a]).0@ != (old(self).entries@[b]).0@);
                } else {
                    assert(self.entries@[b].0@ == key@);
                    assert(a < old_entries.len());
                    assert(self.entries@[a] == old_entries[a]);
                    assert((old(self).entries@[a]).0@ != key@);
                }
            }
        }
    }

    /// A snapshot of the held offsets; empty when the journal is
    /// disabled.
    pub fn offsets(&self) -> (r: Vec<(OffsetKey, i64)>)
        ensures
            self.enabled() ==> entries_view(r@) == self.entry_list(),
            self.enabled() ==> entries_map(entries_view(r@)) == self.offsets_map(),
            !self.enabled() ==> r@.len() == 0,
    {
        let mut out: Vec<(OffsetKey, i64)> = Vec::new();
        if !self.journal_enabled {
            return out;
        }
        let n = self.entries.len();
        let mut i: usize = 0;
        while i < n
            invariant
                n == self.entries@.len(),
                i <= n,
                out@.len() == i,
                forall|m: int| 0 <= m < i ==> (#[trigger] out@[m]).0@
                    == self.entries@[m].0@ && out@[m].1 == self.entries@[m].1,
            decreases n - i,
        {
            out.push((self.entries[i].0.duplicate(), self.entries[i].1));
            i = i + 1;
        }
        proof {
            assert(entries_view(out@) =~= entries_view(self.entries@));
        }
        out
    }

    /// Records one produced offset, overwriting any prior value for its
    /// `(topic, partition)`; a disabled journal records nothing.
    pub fn update(&mut self, offset: MessageOffset)
        requires
            old(self).wf(),
        ensures
            final(self).wf(),
            final(self).enabled() == old(self).enabled(),
            final(self).dir() == old(self).dir(),
            old(self).enabled() ==> final(self).offsets_map() == old(self).offsets_map()
                .insert((offset.topic@, offset.partition as int), offset.offset as int),
            !old(self).enabled() ==> *final(self) == *old(self),
    {
        if !self.journal_enabled {
            return;
        }
        let key = OffsetKey(offset.topic, offset.partition);
        self.upsert(key, offset.offset);
    }

    /// The files a flush writes: one per entry, named `topic.partition`,
    /// holding the decimal offset. A disabled journal writes nothing.
    /// The caller persists them in the journal directory.
    pub fn flush(&self) -> (r: Vec<(String, String)>)
        ensures
            !self.enabled() ==> r@.len() == 0,
            self.enabled() ==> {
                &&& r@.len() == self.entry_list().len()
                &&& forall|i: int| 0 <= i < r@.len()
                    ==> (#[trigger] r@[i].0@, r@[i].1@) == entry_file(
                        self.entry_list()[i].0,
                        self.entry_list()[i].1,
                    )
            },
    {
        let mut out: Vec<(String, String)> = Vec::new();
        if !self.journal_enabled {
            return out;
        }
        let n = self.entries.len();
        let mut i: usize = 0;
        while i < n
            invariant
                n == self.entries@.len(),
                i <= n,
                out@.len() == i,
                forall|m: int| 0 <= m < i ==> ((#[trigger] out@[m]).0@, out@[m].1@)
                    == entry_file(entries_view(self.entries@)[m].0,
                        entries_view(self.entries@)[m].1),
            decreases n - i,
        {
            let entry = &self.entries[i];
            let mut name = entry.0.0.clone();
            name.append(".");
            let part = i32_to_string(entry.0.1);
            name.append(part.as_str());
            let contents = i64_to_string(entry.1);
            proof {
                reveal_strlit(".");
                assert("."@ =~= seq!['.']);
                assert(name@ =~= entry_file(entries_view(self.entries@)[i as int].0,
                    entries_view(self.entries@)[i as int].1).0);
            }
            out.push((name, contents));
            i = i + 1;
        }
        out
    }
}

/// Updating the entry that holds a key is an insert on the map.
proof fn lemma_entries_map_set(
    entries: Seq<((Seq<char>, int), int)>,
    j: int,
    e: ((Seq<char>, int), int),
)
    requires
        0 <= j < entries.len(),
        entries[j].0 == e.0,
        forall|i: int, m: int| 0 <= i < m < entries.len()
            ==> (#[trigger] entries[i]).0 != (#[trigger] entries[m]).0,
    ensures
        entries_map(entries.update(j, e)) == entries_map(entries).insert(e.0, e.1),
    decreases entries.len(),
{
    let w = entries.update(j, e);
    if j == entries.len() - 1 {
        assert(w.drop_last() =~= entries.drop_last());
        assert(w.last() == e);
        assert(entries_map(w)
            =~= entries_map(entries.drop_last()).insert(e.0, e.1));
        assert(entries_map(entries).insert(e.0, e.1)
            =~= entries_map(entries.drop_last()).insert(entries.last().0, entries.last().1)
                .insert(e.0, e.1));
        assert(entries.last().0 == e.0);
        assert(entries_map(entries.drop_last()).insert(entries.last().0, entries.last().1)
            .insert(e.0, e.1)
            =~= entries_map(entries.drop_last()).insert(e.0, e.1));
    } else {
        assert(w.drop_last() =~= entries.drop_last().update(j, e));
        assert(w.last() == entries.last());
        lemma_entries_map_set(entries.drop_last(), j, e);
        assert(entries.last().0 != e.0);
        assert(entries_map(w)
            =~= entries_map(entries.drop_last()).insert(e.0, e.1)
                .insert(entries.last().0, entries.last().1));
        assert(entries_map(entries.drop_last()).insert(e.0, e.1)
            .insert(entries.last().0, entries.last().1)
            =~= entries_map(entries.drop_last())
                .insert(entries.last().0, entries.last().1).insert(e.0, e.1));
    }
}

/// A topic name that contains no `.` makes the file name unambiguous.
pub open spec fn plain_topic(topic: Seq<char>) -> bool {
    !topic.contains('.')
}

/// The file written for one entry parses back to exactly that entry.
proof fn lemma_entry_file_round_trip(key: (Seq<char>, int), offset: int)
    requires
        plain_topic(key.0),
        i32::MIN <= key.1 <= i32::MAX,
        i64::MIN <= offset <= i64::MAX,
    ensures
        spec_file_name_key(entry_file(key, offset).0) == Some(key),
        spec_parse_i64(entry_file(key, offset).1) == Some(offset as i64),
    decreases key.0.len(),
{
    let name = entry_file(key, offset).0;
    let part = spec_i64_string(key.1);
    lemma_decimal_round_trip(key.1 as i64);
    lemma_decimal_round_trip(offset as i64);
    assert(part.len() >= 1);
    lemma_no_dot_in_decimal(key.1);
    lemma_last_dot_of_name(key.0, part);
    assert(name.subrange(0, key.0.len() as int) =~= key.0);
    assert(name.subrange(key.0.len() as int + 1, name.len() as int) =~= part);
}

/// A decimal string holds no `.`.
proof fn lemma_no_dot_in_decimal(n: int)
    requires
        i64::MIN <= n <= i64::MAX,
    ensures
        !spec_i64_string(n).contains('.'),
{
    if n >= 0 {
        lemma_no_dot_in_unsigned(n);
    } else {
        lemma_no_dot_in_unsigned(0 - n);
        let s = spec_i64_string(n);
        assert forall|i: int| 0 <= i < s.len() implies s[i] != '.' by {
            if i > 0 {
                assert(s[i] == spec_u64_string(0 - n)[i - 1]);
            }
        }
        assert(!s.contains('.')) by {
            if s.contains('.') {
                let i = choose|i: int| 0 <= i < s.len() && s[i] == '.';
            }
        }
    }
}

/// An unsigned decimal string holds no `.`.
proof fn lemma_no_dot_in_unsigned(n: int)
    requires
        n >= 0,
    ensures
        !spec_u64_string(n).contains('.'),
{
    crate::strutil::lemma_u64_string_value(n);
    let s = spec_u64_string(n);
    assert forall|i: int| 0 <= i < s.len() implies s[i] != '.' by {
        assert(crate::strutil::is_digit(s[i]));
    }
    assert(!s.contains('.')) by {
        if s.contains('.') {
            let i = choose|i: int| 0 <= i < s.len() && s[i] == '.';
        }
    }
}

/// The last dot of `topic + "." + digits` is the one between them.
proof fn lemma_last_dot_of_name(topic: Seq<char>, part: Seq<char>)
    requires
        !part.contains('.'),
        part.len() >= 1,
    ensures
        last_dot(topic + seq!['.'] + part) == Some(topic.len() as int),
    decreases part.len(),
{
    let name = topic + seq!['.'] + part;
    if part.len() == 1 {
        assert(name[name.len() - 1] == part[0]);
        assert(part.contains(part[0]));
        assert(part[0] != '.');
        assert(name.drop_last() =~= topic + seq!['.']);
        assert((topic + seq!['.']).last() == '.');
        assert(last_dot(topic + seq!['.']) == Some(topic.len() as int));
    } else {
        assert(name[name.len() - 1] == part[part.len() - 1]);
        assert(part.contains(part[part.len() - 1]));
        assert(name.drop_last() =~= topic + seq!['.'] + part.drop_last());
        assert(!part.drop_last().contains('.')) by {
            if part.drop_last().contains('.') {
                let i = choose|i: int| 0 <= i < part.len() - 1 && part.drop_last()[i] == '.';
                assert(part[i] == '.');
            }
        }
        lemma_last_dot_of_name(topic, part.drop_last());
    }
}

/// Law: the files written by a flush, read back into a fresh journal,
/// yield exactly the flushed map. Holds for topics without a `.` in
/// their name; with one, the file name would be ambiguous.
pub proof fn lemma_journal_round_trip(entries: Seq<((Seq<char>, int), int)>)
    requires
        forall|i: int| 0 <= i < entries.len() ==> plain_topic((#[trigger] entries[i]).0.0),
        forall|i: int| 0 <= i < entries.len()
            ==> i32::MIN <= (#[trigger] entries[i]).0.1 <= i32::MAX,
        forall|i: int| 0 <= i < entries.len()
            ==> i64::MIN <= (#[trigger] entries[i]).1 <= i64::MAX,
    ensures
        files_map(entries.map_values(|e: ((Seq<char>, int), int)| entry_file(e.0, e.1)))
            == entries_map(entries),
    decreases entries.len(),
{
    let files = entries.map_values(|e: ((Seq<char>, int), int)| entry_file(e.0, e.1));
    if entries.len() == 0 {
        assert(files.len() == 0);
    } else {
        lemma_journal_round_trip(entries.drop_last());
        assert(files.drop_last() =~= entries.drop_last().map_values(
            |e: ((Seq<char>, int), int)| entry_file(e.0, e.1)));
        let e = entries.last();
        assert(files.last() == entry_file(e.0, e.1));
        lemma_entry_file_round_trip(e.0, e.1);
        assert(files_map(files)
            =~= files_map(files.drop_last()).insert(e.0, e.1));
    }
}

} // verus!
