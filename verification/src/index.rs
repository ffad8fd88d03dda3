//! The title index: a flat table of `(block offset, page id, title)` records
//! read from a colon-delimited text file, searched by linear scan.
//!
//! A line of the file is `offset:page_id:title`. Only the first two colons
//! are structural; the title is whatever follows the second one. Both
//! numbers are decimal numerals that fit 64 bits. A line that does not have
//! this shape is left out of the index.

use vstd::prelude::*;
use vstd::string::*;
use vstd::seq_lib::*;
use vstd::utf8::encode_utf8;
use vstd::std_specs::iter::IteratorSpec;
use crate::text::{
    all_digits, caseless_eq, caseless_prefix, chars_of, decimal_of, find_char, first_index,
    is_digit, lemma_decimal_reads_back, lemma_first_index_bounds, lemma_first_index_is,
    lemma_number_reads_back, parse_decimal, parse_number, same_letter, same_letter_spec, string_of,
};

verus! {

broadcast use vstd::string::group_string_axioms;

/// What an index entry holds.
pub struct Record {
    pub offset: u64,
    pub page_id: u64,
    pub title: Seq<char>,
}

/// One record of the index.
pub struct IndexEntry {
    pub offset: u64,
    pub page_id: u64,
    pub page_name: String,
}

impl View for IndexEntry {
    type V = Record;

    open spec fn view(&self) -> Record {
        Record { offset: self.offset, page_id: self.page_id, title: self.page_name@ }
    }
}

/// Why a line is not an index record.
#[derive(Clone, Copy, Debug, PartialEq, Eq, Structural)]
pub enum IndexError {
    /// The line holds fewer than two colons.
    MissingSeparator,
    /// The text before the first colon is not a 64-bit decimal numeral.
    InvalidOffset,
    /// The text between the first two colons is not a 64-bit decimal numeral.
    InvalidPageId,
}

/// The three fields of a line, or the reason it has none.
pub open spec fn parse_line(s: Seq<char>) -> Result<Record, IndexError> {
    let a = first_index(s, ':');
    if a >= s.len() {
        Err(IndexError::MissingSeparator)
    } else {
        let rest = s.skip(a + 1);
        let b = first_index(rest, ':');
        if b >= rest.len() {
            Err(IndexError::MissingSeparator)
        } else {
            match parse_number(s.take(a)) {
                None => Err(IndexError::InvalidOffset),
                Some(offset) => match parse_number(rest.take(b)) {
                    None => Err(IndexError::InvalidPageId),
                    Some(page_id) => Ok(Record { offset, page_id, title: rest.skip(b + 1) }),
                },
            }
        }
    }
}

/// A line without the carriage return that may end it.
pub open spec fn strip_cr(s: Seq<char>) -> Seq<char> {
    if s.len() > 0 && s.last() == '\r' {
        s.drop_last()
    } else {
        s
    }
}

/// The records of an index text: its lines are the stretches between line
/// feeds (a last line needs none), each without a final carriage return, and
/// every line that is a record contributes it, in order.
pub open spec fn records_of(s: Seq<char>) -> Seq<Record>
    decreases s.len(),
{
    if s.len() == 0 {
        Seq::empty()
    } else {
        let k = first_index(s, '\n');
        let rest = if 0 <= k < s.len() {
            s.skip(k + 1)
        } else {
            Seq::empty()
        };
        match parse_line(strip_cr(s.take(k))) {
            Ok(r) => seq![r] + records_of(rest),
            Err(_) => records_of(rest),
        }
    }
}

impl IndexEntry {
    /// Reads one line of the index file.
    pub fn parse(line: &str) -> (r: Result<IndexEntry, IndexError>)
        ensures
            match r {
                Ok(e) => parse_line(line@) == Ok::<Record, IndexError>(e@),
                Err(e) => parse_line(line@) == Err::<Record, IndexError>(e),
            },
    {
        let chars = chars_of(line);
        let r = Self::parse_chars(chars.as_slice(), 0, chars.len());
        assert(chars@.subrange(0, chars@.len() as int) =~= line@);
        r
    }

    /// Reads the line `s[from..to]`.
    pub fn parse_chars(s: &[char], from: usize, to: usize) -> (r: Result<IndexEntry, IndexError>)
        requires
            from <= to <= s@.len(),
        ensures
            match r {
                Ok(e) => parse_line(s@.subrange(from as int, to as int)) == Ok::<
                    Record,
                    IndexError,
                >(e@),
                Err(e) => parse_line(s@.subrange(from as int, to as int)) == Err::<
                    Record,
                    IndexError,
                >(e),
            },
    {
        let ghost line = s@.subrange(from as int, to as int);
        let line_slice = vstd::slice::slice_subrange(s, from, to);
        let n = to - from;
        let a = find_char(line_slice, 0, ':');
        assert(line.skip(0) =~= line);
        if a >= n {
            return Err(IndexError::MissingSeparator);
        }
        let b = find_char(line_slice, a + 1, ':');
        let ghost rest = line.skip(a + 1);
        if b >= n {
            return Err(IndexError::MissingSeparator);
        }
        assert(line.subrange(0, a as int) =~= line.take(a as int));
        assert(line.subrange(a + 1, b as int) =~= rest.take(b - (a + 1)));
        assert(line.subrange(b + 1, n as int) =~= rest.skip(b - (a + 1) + 1));
        let offset = match parse_decimal(line_slice, 0, a) {
            Some(v) => v,
            None => {
                return Err(IndexError::InvalidOffset);
            },
        };
        let page_id = match parse_decimal(line_slice, a + 1, b) {
            Some(v) => v,
            None => {
                return Err(IndexError::InvalidPageId);
            },
        };
        let page_name = string_of(line_slice, b + 1, n);
        Ok(IndexEntry { offset, page_id, page_name })
    }
}

/// The most entries a prefix search returns.
pub const MAX_RESULTS: usize = 100;

/// The flat, read-only table of records.
pub struct Index {
    entries: Vec<IndexEntry>,
}

/// What each of a sequence of entries holds.
pub open spec fn records(entries: Seq<IndexEntry>) -> Seq<Record> {
    entries.map_values(|e: IndexEntry| e@)
}

/// What each of a sequence of borrowed entries holds.
pub open spec fn borrowed_records(entries: Seq<&IndexEntry>) -> Seq<Record> {
    entries.map_values(|e: &IndexEntry| e@)
}

/// The test a prefix search applies to each record.
pub open spec fn title_starts_with(query: Seq<char>) -> spec_fn(Record) -> bool {
    |r: Record| caseless_prefix(r.title, query)
}

/// The records a prefix search selects: in index order, the first
/// `MAX_RESULTS` whose title starts with the query, letter case aside.
pub open spec fn first_hits(all: Seq<Record>, query: Seq<char>) -> Seq<Record> {
    let hits = all.filter(title_starts_with(query));
    if hits.len() > MAX_RESULTS {
        hits.take(MAX_RESULTS as int)
    } else {
        hits
    }
}

/// The length by which search results are ordered: that of the title's
/// UTF-8 encoding.
pub open spec fn title_len(r: Record) -> nat {
    encode_utf8(r.title).len()
}

/// Whether `k` is the first position whose title equals `name`, letter case
/// aside.
pub open spec fn is_first_exact(all: Seq<Record>, name: Seq<char>, k: int) -> bool {
    &&& 0 <= k < all.len()
    &&& caseless_eq(all[k].title, name)
    &&& forall|j: int| 0 <= j < k ==> !caseless_eq(#[trigger] all[j].title, name)
}

/// Inserting an item anywhere into a sequence adds it to the sequence's
/// multiset.
pub proof fn lemma_insert_to_multiset<A>(s: Seq<A>, p: int, x: A)
    requires
        0 <= p <= s.len(),
    ensures
        s.insert(p, x).to_multiset() =~= s.to_multiset().insert(x),
{
    let t = s.insert(p, x);
    assert(t.remove(p) =~= s);
    to_multiset_remove(t, p);
    t.to_multiset_ensures();
    assert(t.contains(x)) by {
        assert(t[p] == x);
    }
}

impl View for Index {
    type V = Seq<Record>;

    closed spec fn view(&self) -> Seq<Record> {
        records(self.entries@)
    }
}

impl Index {
    /// An index over the given entries, in their order.
    pub fn from_entries(entries: Vec<IndexEntry>) -> (r: Index)
        ensures
            r@ == records(entries@),
    {
        Index { entries }
    }

    /// Reads an index text. Lines that are not records are left out.
    pub fn load(text: &str) -> (r: Index)
        ensures
            r@ == records_of(text@),
    {
        let chars = chars_of(text);
        let n = chars.len();
        let mut entries: Vec<IndexEntry> = Vec::new();
        let mut pos: usize = 0;
        assert(chars@.skip(0) =~= chars@);
        while pos < n
            invariant
                n == chars@.len(),
                pos <= n,
                records(entries@) + records_of(chars@.skip(pos as int)) == records_of(chars@),
            decreases n - pos,
        {
            let ghost tail = chars@.skip(pos as int);
            let k = find_char(chars.as_slice(), pos, '\n');
            let end = if k > pos && chars[k - 1] == '\r' {
                k - 1
            } else {
                k
            };
            let next = if k < n {
                k + 1
            } else {
                n
            };
            proof {
                let line = tail.take(k - pos);
                assert(line =~= chars@.subrange(pos as int, k as int));
                assert(strip_cr(line) =~= chars@.subrange(pos as int, end as int));
                if k < n {
                    assert(tail.skip(k - pos + 1) =~= chars@.skip(next as int));
                } else {
                    assert(chars@.skip(next as int) =~= Seq::<char>::empty());
                }
            }
            let ghost before = records(entries@);
            match IndexEntry::parse_chars(chars.as_slice(), pos, end) {
                Ok(entry) => {
                    entries.push(entry);
                    assert(records(entries@) =~= before.push(entry@));
                    assert(before.push(entry@) + records_of(chars@.skip(next as int)) =~= before + (
                    seq![entry@] + records_of(chars@.skip(next as int))));
                },
                Err(_) => {},
            }
            pos = next;
        }
        assert(records(entries@) + Seq::<Record>::empty() =~= records(entries@));
        Index { entries }
    }

    /// The entries whose title starts with `query`, letter case aside: of
    /// those, the first `MAX_RESULTS` in index order, returned with shorter
    /// titles first.
    pub fn find_article(&self, query: &str) -> (r: Vec<&IndexEntry>)
        ensures
            r@.len() <= MAX_RESULTS,
            borrowed_records(r@).to_multiset() == first_hits(self@, query@).to_multiset(),
            forall|i: int| 0 <= i < r@.len() ==> caseless_prefix((#[trigger] r@[i])@.title, query@),
            forall|i: int, j: int|
                0 <= i <= j < r@.len() ==> title_len((#[trigger] r@[i])@) <= title_len(
                    (#[trigger] r@[j])@,
                ),
    {
        let ghost pred = title_starts_with(query@);
        let n = self.entries.len();
        let mut hits: Vec<&IndexEntry> = Vec::new();
        let mut i: usize = 0;
        proof {
            assert(self@.take(0) =~= Seq::<Record>::empty());
            reveal(Seq::filter);
            assert(borrowed_records(hits@) =~= Seq::<Record>::empty());
        }
        while i < n && hits.len() < MAX_RESULTS
            invariant
                n == self.entries@.len(),
                n == self@.len(),
                i <= n,
                pred == title_starts_with(query@),
                hits@.len() <= MAX_RESULTS,
                hits@.len() == self@.take(i as int).filter(pred).len(),
                borrowed_records(hits@).to_multiset() == self@.take(i as int).filter(
                    pred,
                ).to_multiset(),
                forall|a: int|
                    0 <= a < hits@.len() ==> caseless_prefix((#[trigger] hits@[a])@.title, query@),
                forall|a: int, b: int|
                    0 <= a <= b < hits@.len() ==> title_len((#[trigger] hits@[a])@) <= title_len(
                        (#[trigger] hits@[b])@,
                    ),
            decreases n - i,
        {
            let entry = &self.entries[i];
            let ghost seen = self@.take(i as int);
            proof {
                assert(self@.take(i + 1) =~= seen.push(self@[i as int]));
                seen.lemma_filter_push(self@[i as int], pred);
                assert(self@[i as int] == entry@);
            }
            if Self::starts_with(entry.page_name.as_str(), query) {
                let len = entry.page_name.as_str().as_bytes().len();
                let mut p: usize = 0;
                while p < hits.len() && hits[p].page_name.as_str().as_bytes().len() <= len
                    invariant
                        p <= hits@.len(),
                        len == title_len(entry@),
                        forall|a: int|
                            0 <= a < p ==> title_len((#[trigger] hits@[a])@) <= title_len(entry@),
                    decreases hits@.len() - p,
                {
                    p += 1;
                }
                let ghost old_hits = hits@;
                hits.insert(p, entry);
                proof {
                    assert(borrowed_records(hits@) =~= borrowed_records(old_hits).insert(
                        p as int,
                        entry@,
                    ));
                    lemma_insert_to_multiset(borrowed_records(old_hits), p as int, entry@);
                    to_multiset_build(seen.filter(pred), entry@);
                    assert forall|a: int, b: int| 0 <= a <= b < hits@.len() implies title_len(
                        (#[trigger] hits@[a])@,
                    ) <= title_len((#[trigger] hits@[b])@) by {
                        if a < p && b > p {
                            assert(hits@[a] == old_hits[a]);
                            assert(hits@[b] == old_hits[b - 1]);
                        } else if a > p {
                            assert(hits@[a] == old_hits[a - 1]);
                            assert(hits@[b] == old_hits[b - 1]);
                        } else if a == p && b > p {
                            assert(hits@[b] == old_hits[b - 1]);
                            assert(title_len(old_hits[p as int]@) <= title_len(old_hits[b - 1]@));
                        } else if b < p {
                            assert(hits@[a] == old_hits[a]);
                            assert(hits@[b] == old_hits[b]);
                        }
                    }
                    assert forall|a: int| 0 <= a < hits@.len() implies caseless_prefix(
                        (#[trigger] hits@[a])@.title,
                        query@,
                    ) by {
                        if a < p {
                            assert(hits@[a] == old_hits[a]);
                        } else if a > p {
                            assert(hits@[a] == old_hits[a - 1]);
                        }
                    }
                }
            }
            i += 1;
        }
        proof {
            let seen = self@.take(i as int);
            let rest = self@.skip(i as int);
            assert(self@ =~= seen + rest);
            Seq::filter_distributes_over_add(seen, rest, pred);
            if i < n {
                assert((seen.filter(pred) + rest.filter(pred)).take(MAX_RESULTS as int)
                    =~= seen.filter(pred));
            } else {
                assert(seen =~= self@);
            }
            assert(first_hits(self@, query@) =~= seen.filter(pred));
        }
        hits
    }

    /// The first entry, in index order, whose title equals `name`, letter
    /// case aside; `None` if there is none.
    pub fn find_article_exact(&self, name: &str) -> (r: Option<&IndexEntry>)
        ensures
            match r {
                Some(e) => exists|k: int| is_first_exact(self@, name@, k) && self@[k] == e@,
                None => forall|k: int|
                    0 <= k < self@.len() ==> !caseless_eq(#[trigger] self@[k].title, name@),
            },
    {
        let n = self.entries.len();
        let mut i: usize = 0;
        while i < n
            invariant
                n == self.entries@.len(),
                i <= n,
                forall|k: int| 0 <= k < i ==> !caseless_eq(#[trigger] self@[k].title, name@),
            decreases n - i,
        {
            let entry = &self.entries[i];
            assert(self@[i as int] == entry@);
            if Self::equals(entry.page_name.as_str(), name) {
                assert(is_first_exact(self@, name@, i as int));
                return Some(entry);
            }
            i += 1;
        }
        None
    }

    /// Whether `name` equals `query`, letter case aside. Compares character
    /// by character and allocates nothing.
    pub fn equals(name: &str, query: &str) -> (r: bool)
        ensures
            r == caseless_eq(name@, query@),
    {
        let mut a = name.chars();
        let mut b = query.chars();
        let ghost mut n: int = 0;
        loop
            invariant
                0 <= n <= name@.len(),
                n <= query@.len(),
                a.remaining() == name@.skip(n),
                b.remaining() == query@.skip(n),
                forall|i: int| 0 <= i < n ==> same_letter_spec(#[trigger] name@[i], query@[i]),
            decreases name@.len() - n,
        {
            match (a.next(), b.next()) {
                (None, None) => {
                    return true;
                },
                (Some(x), Some(y)) => {
                    assert(x == name@[n] && y == query@[n]);
                    if !same_letter(x, y) {
                        return false;
                    }
                    proof {
                        assert(name@.skip(n).drop_first() =~= name@.skip(n + 1));
                        assert(query@.skip(n).drop_first() =~= query@.skip(n + 1));
                        n = n + 1;
                    }
                },
                _ => {
                    return false;
                },
            }
        }
    }

    /// Whether `name` starts with `query`, letter case aside. Compares
    /// character by character and allocates nothing.
    pub fn starts_with(name: &str, query: &str) -> (r: bool)
        ensures
            r == caseless_prefix(name@, query@),
    {
        let mut a = name.chars();
        let mut b = query.chars();
        let ghost mut n: int = 0;
        loop
            invariant
                0 <= n <= name@.len(),
                n <= query@.len(),
                a.remaining() == name@.skip(n),
                b.remaining() == query@.skip(n),
                forall|i: int| 0 <= i < n ==> same_letter_spec(#[trigger] name@[i], query@[i]),
            decreases query@.len() - n,
        {
            match b.next() {
                None => {
                    return true;
                },
                Some(y) => {
                    match a.next() {
                        None => {
                            return false;
                        },
                        Some(x) => {
                            assert(x == name@[n] && y == query@[n]);
                            if !same_letter(x, y) {
                                return false;
                            }
                            proof {
                                assert(name@.skip(n).drop_first() =~= name@.skip(n + 1));
                                assert(query@.skip(n).drop_first() =~= query@.skip(n + 1));
                                n = n + 1;
                            }
                        },
                    }
                },
            }
        }
    }

    /// The number of entries.
    pub fn size(&self) -> (r: usize)
        ensures
            r == self@.len(),
    {
        self.entries.len()
    }
}

/// A line written as `offset:page_id:title`, both numbers in canonical
/// decimal, parses to that offset, page id and title.
pub proof fn lemma_line_reads_back(offset: u64, page_id: u64, title: Seq<char>)
    ensures
        parse_line(
            decimal_of(offset as nat) + seq![':'] + decimal_of(page_id as nat) + seq![':'] + title,
        ) == Ok::<Record, IndexError>(Record { offset, page_id, title }),
{
    let a = decimal_of(offset as nat);
    let b = decimal_of(page_id as nat);
    let line = a + seq![':'] + b + seq![':'] + title;
    lemma_decimal_reads_back(offset as nat);
    lemma_decimal_reads_back(page_id as nat);
    lemma_number_reads_back(offset);
    lemma_number_reads_back(page_id);
    assert forall|j: int| 0 <= j < a.len() implies line[j] != ':' by {
        assert(line[j] == a[j]);
        assert(is_digit(a[j]));
    }
    assert(line[a.len() as int] == ':');
    lemma_first_index_is(line, ':', a.len() as int);
    let rest = line.skip(a.len() as int + 1);
    assert(rest =~= b + seq![':'] + title);
    assert forall|j: int| 0 <= j < b.len() implies rest[j] != ':' by {
        assert(rest[j] == b[j]);
        assert(is_digit(b[j]));
    }
    assert(rest[b.len() as int] == ':');
    lemma_first_index_is(rest, ':', b.len() as int);
    assert(line.take(a.len() as int) =~= a);
    assert(rest.take(b.len() as int) =~= b);
    assert(rest.skip(b.len() as int + 1) =~= title);
}

/// The records of a text that continues after a line feed are those of the
/// part up to the line feed, then those of the rest.
pub proof fn lemma_records_of_concat(before: Seq<char>, rest: Seq<char>)
    requires
        before.len() == 0 || before.last() == '\n',
    ensures
        records_of(before + rest) == records_of(before) + records_of(rest),
    decreases before.len(),
{
    if before.len() == 0 {
        assert(before + rest =~= rest);
        assert(records_of(before) + records_of(rest) =~= records_of(rest));
    } else {
        let whole = before + rest;
        let k = first_index(before, '\n');
        lemma_first_index_bounds(before, '\n');
        assert(k < before.len()) by {
            if k >= before.len() {
                assert(before[before.len() - 1] != '\n');
            }
        }
        assert forall|j: int| 0 <= j < k implies whole[j] != '\n' by {
            assert(whole[j] == before[j]);
        }
        assert(whole[k] == before[k]);
        lemma_first_index_is(whole, '\n', k);
        assert(whole.take(k) =~= before.take(k));
        let tail = before.skip(k + 1);
        assert(whole.skip(k + 1) =~= tail + rest);
        assert(tail.len() == 0 || tail.last() == '\n') by {
            if tail.len() > 0 {
                assert(tail.last() == before.last());
            }
        }
        lemma_records_of_concat(tail, rest);
        match parse_line(strip_cr(before.take(k))) {
            Ok(r) => {
                assert(seq![r] + (records_of(tail) + records_of(rest)) =~= (seq![r] + records_of(
                    tail,
                )) + records_of(rest));
            },
            Err(_) => {},
        }
    }
}

/// Where some record at or before `j` has a title equal to `name`, letter
/// case aside, there is a first such record.
pub proof fn lemma_first_exact_exists(all: Seq<Record>, name: Seq<char>, j: int)
    requires
        0 <= j < all.len(),
        caseless_eq(all[j].title, name),
    ensures
        exists|k: int| 0 <= k <= j && is_first_exact(all, name, k),
    decreases j,
{
    if forall|i: int| 0 <= i < j ==> !caseless_eq(#[trigger] all[i].title, name) {
        assert(is_first_exact(all, name, j));
    } else {
        let i = choose|i: int| 0 <= i < j && caseless_eq(#[trigger] all[i].title, name);
        lemma_first_exact_exists(all, name, i);
    }
}

/// Loading finds what was written. Let an index text hold, as one of its
/// lines, `offset:page_id:title` with both numbers in canonical decimal,
/// where the title holds no line feed and does not end in a carriage return.
/// Then the loaded index holds the record `(offset, page_id, title)`, and an
/// exact search for any `query` that equals the title, letter case aside,
/// finds a record: there is a first record whose title equals the query,
/// letter case aside, and where the index holds only one such record, it is
/// `(offset, page_id, title)`.
pub proof fn law_loaded_line_is_found(
    before: Seq<char>,
    offset: u64,
    page_id: u64,
    title: Seq<char>,
    after: Seq<char>,
    query: Seq<char>,
)
    requires
        before.len() == 0 || before.last() == '\n',
        after.len() == 0 || after[0] == '\n',
        forall|i: int| 0 <= i < title.len() ==> title[i] != '\n',
        title.len() == 0 || title.last() != '\r',
        caseless_eq(title, query),
    ensures
        ({
            let line = decimal_of(offset as nat) + seq![':'] + decimal_of(page_id as nat) + seq![
                ':',
            ] + title;
            let all = records_of(before + line + after);
            let wanted = Record { offset, page_id, title };
            &&& all.contains(wanted)
            &&& exists|k: int| is_first_exact(all, query, k)
            &&& forall|k: int|
                is_first_exact(all, query, k) && (forall|j: int|
                    0 <= j < all.len() && caseless_eq(#[trigger] all[j].title, query) ==> all[j]
                        == wanted) ==> all[k] == wanted
        }),
{
    let a = decimal_of(offset as nat);
    let b = decimal_of(page_id as nat);
    let line = a + seq![':'] + b + seq![':'] + title;
    let wanted = Record { offset, page_id, title };
    let rest = line + after;
    assert(before + line + after =~= before + rest);
    lemma_records_of_concat(before, rest);
    lemma_decimal_reads_back(offset as nat);
    lemma_decimal_reads_back(page_id as nat);
    lemma_line_reads_back(offset, page_id, title);
    assert forall|j: int| 0 <= j < line.len() implies line[j] != '\n' by {
        if j < a.len() {
            assert(line[j] == a[j]);
            assert(is_digit(a[j]));
        } else if j == a.len() {
        } else if j < a.len() + 1 + b.len() {
            assert(line[j] == b[j - a.len() - 1]);
            assert(is_digit(b[j - a.len() - 1]));
        } else if j == a.len() + 1 + b.len() {
        } else {
            assert(line[j] == title[j - a.len() - b.len() - 2]);
        }
    }
    assert forall|j: int| 0 <= j < line.len() implies rest[j] != '\n' by {
        assert(rest[j] == line[j]);
    }
    if after.len() > 0 {
        assert(rest[line.len() as int] == after[0]);
    }
    lemma_first_index_is(rest, '\n', line.len() as int);
    assert(rest.take(line.len() as int) =~= line);
    assert(strip_cr(line) == line) by {
        if title.len() > 0 {
            assert(line.last() == title.last());
        } else {
            assert(line.last() == ':');
        }
    }
    let tail = if line.len() < rest.len() {
        rest.skip(line.len() as int + 1)
    } else {
        Seq::<char>::empty()
    };
    assert(records_of(rest) == seq![wanted] + records_of(tail));
    let all = records_of(before) + records_of(rest);
    let at = records_of(before).len() as int;
    assert(all[at] == wanted);
    lemma_first_exact_exists(all, query, at);
}

/// An exact search matches only titles of the query's own length: the
/// record it finds has as many characters as the query, so a query is never
/// answered with a title that merely starts with it, or that it starts
/// with.
pub proof fn law_exact_search_needs_equal_length(all: Seq<Record>, name: Seq<char>, k: int)
    requires
        is_first_exact(all, name, k),
    ensures
        all[k].title.len() == name.len(),
{
}

/// Titles are compared letter case aside: a title equals itself, and
/// equality goes both ways and carries over.
pub proof fn law_caseless_eq_is_an_equivalence(a: Seq<char>, b: Seq<char>, c: Seq<char>)
    ensures
        caseless_eq(a, a),
        caseless_eq(a, b) ==> caseless_eq(b, a),
        caseless_eq(a, b) && caseless_eq(b, c) ==> caseless_eq(a, c),
{
    if caseless_eq(a, b) {
        assert forall|i: int| 0 <= i < b.len() implies same_letter_spec(#[trigger] b[i], a[i]) by {
            assert(same_letter_spec(a[i], b[i]));
        }
        if caseless_eq(b, c) {
            assert forall|i: int| 0 <= i < a.len() implies same_letter_spec(
                #[trigger] a[i],
                c[i],
            ) by {
                assert(same_letter_spec(a[i], b[i]));
                assert(same_letter_spec(b[i], c[i]));
            }
        }
    }
}
} // verus!
