//! The class-to-targets index: a table mapping a JVM class name to a
//! frequency-ranked list of build targets that provide it, persisted as
//! one tab-separated record per line:
//! `<class>\t<freq>:<label>[,<freq>:<label>]*\n`.

use vstd::prelude::*;
use vstd::string::StrSliceExecFns;
use vstd::string::StringExecFns;

use crate::text::all_digits;
use crate::text::dec_digits;
use crate::text::digits_val;
use crate::text::find_idx;
use crate::text::join_spec;
use crate::text::join_with;
use crate::text::u16_to_dec;

verus! {

/// One record: a class name and its ranked `(frequency, label)` entries.
pub type IndexRecord = (Seq<char>, Seq<(u16, Seq<char>)>);

/// A target label as stored in the index: non-empty, and free of the
/// three characters the record format reserves.
pub open spec fn wf_entry_label(l: Seq<char>) -> bool {
    l.len() > 0 && forall|i: int| 0 <= i < l.len() ==> l[i] != ',' && l[i] != '\r' && l[i] != '\n'
}

/// A class-name key: non-empty, and free of the record separators.
pub open spec fn wf_key(k: Seq<char>) -> bool {
    k.len() > 0 && forall|i: int|
        0 <= i < k.len() ==> k[i] != '\t' && k[i] != '\r' && k[i] != '\n'
}

pub open spec fn wf_record(r: IndexRecord) -> bool {
    &&& wf_key(r.0)
    &&& r.1.len() > 0
    &&& forall|i: int| 0 <= i < r.1.len() ==> wf_entry_label((#[trigger] r.1[i]).1)
}

pub open spec fn wf_records(rs: Seq<IndexRecord>) -> bool {
    forall|i: int| 0 <= i < rs.len() ==> wf_record(#[trigger] rs[i])
}

/// The class-to-targets lookup table, read-only once loaded.
pub struct IndexTable {
    entries: Vec<(String, Vec<(u16, String)>)>,
}

impl IndexTable {
    /// The records of the table, in stored order.
    pub closed spec fn view(&self) -> Seq<IndexRecord> {
        self.entries.deep_view()
    }

    pub open spec fn wf(&self) -> bool {
        wf_records(self@)
    }

    /// The value of the first record whose key is `key`.
    pub open spec fn lookup(rs: Seq<IndexRecord>, key: Seq<char>) -> Option<Seq<(u16, Seq<char>)>>
        decreases rs.len(),
    {
        if rs.len() == 0 {
            None
        } else if rs[0].0 == key {
            Some(rs[0].1)
        } else {
            Self::lookup(rs.skip(1), key)
        }
    }

    pub fn new() -> (r: IndexTable)
        ensures
            r@ == Seq::<IndexRecord>::empty(),
            r.wf(),
    {
        let r = IndexTable { entries: Vec::new() };
        proof {
            assert(r@ =~= Seq::<IndexRecord>::empty());
        }
        r
    }

    /// Builds a table from records already in ranked order.
    pub fn from_entries(entries: Vec<(String, Vec<(u16, String)>)>) -> (r: IndexTable)
        ensures
            r@ == entries.deep_view(),
    {
        IndexTable { entries }
    }

    /// Looks `key` up, returning the stored `(frequency, label)` list.
    pub fn get(&self, key: &str) -> (r: Option<&Vec<(u16, String)>>)
        ensures
            match r {
                Some(v) => Self::lookup(self@, key@) == Some(v.deep_view()),
                None => Self::lookup(self@, key@) is None,
            },
    {
        let n = self.entries.len();
        let mut i: usize = 0;
        proof {
            assert(self@.skip(0) =~= self@);
        }
        while i < n
            invariant
                0 <= i <= n,
                n == self.entries@.len(),
                self@ == self.entries.deep_view(),
                Self::lookup(self@, key@) == Self::lookup(self@.skip(i as int), key@),
            decreases n - i,
        {
            proof {
                assert(self@.skip(i as int)[0] == self@[i as int]);
                assert(self@[i as int].0 == self.entries@[i as int].0@);
            }
            if crate::text::str_eq(self.entries[i].0.as_str(), key) {
                return Some(&self.entries[i].1);
            }
            proof {
                assert(self@.skip(i as int).skip(1) =~= self@.skip(i + 1));
            }
            i = i + 1;
        }
        proof {
            assert(self@.skip(n as int) =~= Seq::<IndexRecord>::empty());
        }
        None
    }
}

/// The persisted form of one `(frequency, label)` entry.
pub open spec fn ser_entry(e: (u16, Seq<char>)) -> Seq<char> {
    dec_digits(e.0 as nat) + seq![':'] + e.1
}

/// The persisted form of a record's entry list.
pub open spec fn ser_entries(es: Seq<(u16, Seq<char>)>) -> Seq<char> {
    join_spec(es.map_values(|e: (u16, Seq<char>)| ser_entry(e)), seq![','])
}

/// The persisted form of one record, without its line terminator.
pub open spec fn ser_record(r: IndexRecord) -> Seq<char> {
    r.0 + seq!['\t'] + ser_entries(r.1)
}

/// The persisted form of a whole table: records in order, each on its own
/// line.
pub open spec fn ser_table(rs: Seq<IndexRecord>) -> Seq<char>
    decreases rs.len(),
{
    if rs.len() == 0 {
        Seq::empty()
    } else {
        ser_record(rs[0]) + seq!['\n'] + ser_table(rs.skip(1))
    }
}

impl IndexTable {
    /// Renders the table in its persisted line format.
    pub fn serialize(&self) -> (r: String)
        ensures
            r@ == ser_table(self@),
    {
        let mut out = String::new();
        let n = self.entries.len();
        let mut i: usize = 0;
        proof {
            assert(ser_table_take_all(self@, 0) == out@) by {
                lemma_ser_table_take(self@, 0);
            }
        }
        while i < n
            invariant
                0 <= i <= n,
                n == self.entries@.len(),
                self@ == self.entries.deep_view(),
                out@ == ser_table_take_all(self@, i as int),
            decreases n - i,
        {
            let rec = &self.entries[i];
            out.append(rec.0.as_str());
            let tab: &str = "\t";
            out.append(tab);
            let mut parts: Vec<String> = Vec::new();
            let m = rec.1.len();
            let mut j: usize = 0;
            proof {
                assert(parts.deep_view() =~= rec.1.deep_view().map_values(
                    |e: (u16, Seq<char>)| ser_entry(e),
                ).take(0));
            }
            while j < m
                invariant
                    0 <= j <= m,
                    m == rec.1@.len(),
                    parts.deep_view() == rec.1.deep_view().map_values(
                        |e: (u16, Seq<char>)| ser_entry(e),
                    ).take(j as int),
                decreases m - j,
            {
                let colon: &str = ":";
                let freq_str = u16_to_dec(rec.1[j].0);
                let piece = crate::text::concat3(
                    freq_str.as_str(),
                    colon,
                    rec.1[j].1.as_str(),
                );
                let ghost prev = parts.deep_view();
                parts.push(piece);
                proof {
                    reveal_strlit(":");
                    let mapped = rec.1.deep_view().map_values(|e: (u16, Seq<char>)| ser_entry(e));
                    assert(rec.1.deep_view()[j as int] == (rec.1@[j as int].0, rec.1@[j as int].1@));
                    assert(piece@ == ser_entry(rec.1.deep_view()[j as int]));
                    assert(parts.deep_view() =~= prev.push(mapped[j as int]));
                    assert(mapped.take(j + 1) =~= mapped.take(j as int).push(mapped[j as int]));
                }
                j = j + 1;
            }
            proof {
                let mapped = rec.1.deep_view().map_values(|e: (u16, Seq<char>)| ser_entry(e));
                assert(mapped.take(m as int) =~= mapped);
            }
            let comma: &str = ",";
            let joined = join_with(&parts, comma);
            out.append(joined.as_str());
            let nl: &str = "\n";
            out.append(nl);
            proof {
                reveal_strlit("\t");
                reveal_strlit(",");
                reveal_strlit("\n");
                assert(comma@ =~= seq![',']);
                assert(tab@ =~= seq!['\t']);
                assert(nl@ =~= seq!['\n']);
                let rv = self@[i as int];
                assert(rv.0 == rec.0@ && rv.1 == rec.1.deep_view());
                assert(joined@ == ser_entries(rv.1));
                lemma_ser_table_take(self@, i + 1);
                lemma_ser_table_take(self@, i as int);
                assert(ser_table_take_all(self@, i + 1) == ser_table_take_all(self@, i as int)
                    + ser_record(rv) + seq!['\n']);
                assert(out@ =~= ser_table_take_all(self@, i as int) + ser_record(rv) + seq!['\n']);
            }
            i = i + 1;
        }
        proof {
            lemma_ser_table_take(self@, n as int);
            assert(self@.take(n as int) =~= self@);
        }
        out
    }
}

/// The serialized form of the first `k` records.
pub open spec fn ser_table_take_all(rs: Seq<IndexRecord>, k: int) -> Seq<char> {
    ser_table(rs.take(k))
}

/// Serialization grows record by record from the front.
pub proof fn lemma_ser_table_take(rs: Seq<IndexRecord>, k: int)
    requires
        0 <= k <= rs.len(),
    ensures
        k == 0 ==> ser_table_take_all(rs, k) == Seq::<char>::empty(),
        k > 0 ==> ser_table_take_all(rs, k) == ser_table_take_all(rs, k - 1) + ser_record(
            rs[k - 1],
        ) + seq!['\n'],
    decreases k,
{
    if k > 0 {
        lemma_ser_table_snoc(rs.take(k - 1), rs[k - 1]);
        assert(rs.take(k) =~= rs.take(k - 1).push(rs[k - 1]));
    } else {
        assert(rs.take(0) =~= Seq::<IndexRecord>::empty());
    }
}

/// Parse of one `<freq>:<label>` entry. Strict: the frequency must be a
/// decimal number fitting 16 bits, and the label non-empty and free of
/// `,`, `\r`, `\n`.
pub open spec fn parse_entry_spec(s: Seq<char>) -> Option<(u16, Seq<char>)> {
    let j = find_idx(s, ':', 0);
    if j == 0 || j >= s.len() {
        None
    } else {
        let ds = s.take(j);
        let lab = s.skip(j + 1);
        if all_digits(ds) && digits_val(ds) <= u16::MAX && wf_entry_label(lab) {
            Some((digits_val(ds) as u16, lab))
        } else {
            None
        }
    }
}

/// Parse of a comma-separated entry list: every piece must parse.
pub open spec fn parse_entries_spec(s: Seq<char>) -> Option<Seq<(u16, Seq<char>)>> {
    let pieces = crate::text::split_spec(s, ',');
    if forall|i: int| 0 <= i < pieces.len() ==> (#[trigger] parse_entry_spec(pieces[i])) is Some {
        Some(Seq::new(pieces.len(), |i: int| parse_entry_spec(pieces[i]).unwrap()))
    } else {
        None
    }
}

/// Parse of one record line: a well-formed key, one tab, and a non-empty
/// entry list.
pub open spec fn parse_line_spec(line: Seq<char>) -> Option<IndexRecord> {
    let i = find_idx(line, '\t', 0);
    if i == 0 || i >= line.len() {
        None
    } else {
        let key = line.take(i);
        if !wf_key(key) {
            None
        } else {
            match parse_entries_spec(line.skip(i + 1)) {
                Some(es) => Some((key, es)),
                None => None,
            }
        }
    }
}

/// Parse of a line list: empty lines, and lines carrying no entries at
/// all (no tab), are skipped; anything else must be a record.
pub open spec fn parse_lines_spec(ls: Seq<Seq<char>>) -> Option<Seq<IndexRecord>>
    decreases ls.len(),
{
    if ls.len() == 0 {
        Some(Seq::empty())
    } else {
        let rest = parse_lines_spec(ls.skip(1));
        if ls[0].len() == 0 || find_idx(ls[0], '\t', 0) == ls[0].len() {
            rest
        } else {
            match (parse_line_spec(ls[0]), rest) {
                (Some(r), Some(rs)) => Some(seq![r] + rs),
                _ => None,
            }
        }
    }
}

/// Parse of a whole index file.
pub open spec fn parse_table_spec(input: Seq<char>) -> Option<Seq<IndexRecord>> {
    parse_lines_spec(crate::text::lines_spec(input))
}

/// A failed index-file parse, naming the offending line.
#[derive(Debug, PartialEq, Eq, Structural)]
pub struct IndexParseError {
    pub line_number: usize,
}

fn label_is_wf(s: &str, from: usize) -> (r: bool)
    requires
        from <= s@.len(),
    ensures
        r == wf_entry_label(s@.skip(from as int)),
{
    let slen = s.unicode_len();
    if from == slen {
        return false;
    }
    let mut i: usize = from;
    while i < slen
        invariant
            from <= i <= slen,
            slen == s@.len(),
            forall|j: int|
                from <= j < i ==> s@[j] != ',' && s@[j] != '\r' && s@[j] != '\n',
        decreases slen - i,
    {
        let c = s.get_char(i);
        if c == ',' || c == '\r' || c == '\n' {
            proof {
                assert(s@.skip(from as int)[i - from] == s@[i as int]);
            }
            return false;
        }
        i = i + 1;
    }
    proof {
        assert(forall|j: int|
            0 <= j < s@.skip(from as int).len() ==> #[trigger] s@.skip(from as int)[j] == s@[j
                + from]);
    }
    true
}

fn key_is_wf(s: &str, upto: usize) -> (r: bool)
    requires
        upto <= s@.len(),
    ensures
        r == wf_key(s@.take(upto as int)),
{
    if upto == 0 {
        return false;
    }
    let mut i: usize = 0;
    while i < upto
        invariant
            0 <= i <= upto,
            upto <= s@.len(),
            forall|j: int|
                0 <= j < i ==> s@[j] != '\t' && s@[j] != '\r' && s@[j] != '\n',
        decreases upto - i,
    {
        let c = s.get_char(i);
        if c == '\t' || c == '\r' || c == '\n' {
            proof {
                assert(s@.take(upto as int)[i as int] == s@[i as int]);
            }
            return false;
        }
        i = i + 1;
    }
    proof {
        assert(forall|j: int|
            0 <= j < upto ==> #[trigger] s@.take(upto as int)[j] == s@[j]);
    }
    true
}

fn parse_entry(s: &str) -> (r: Option<(u16, String)>)
    ensures
        r.deep_view() == parse_entry_spec(s@),
{
    let slen = s.unicode_len();
    let j = crate::text::find_char(s, ':');
    if j == 0 || j >= slen {
        return None;
    }
    let ds = s.substring_char(0, j);
    proof {
        assert(ds@ =~= s@.take(j as int));
    }
    let freq = match crate::text::parse_u16_str(ds) {
        Some(f) => f,
        None => {
            return None;
        },
    };
    if !label_is_wf(s, j + 1) {
        return None;
    }
    let lab = s.substring_char(j + 1, slen);
    proof {
        assert(lab@ =~= s@.skip(j + 1));
    }
    Some((freq, String::from_str(lab)))
}

fn parse_entries(s: &str) -> (r: Option<Vec<(u16, String)>>)
    ensures
        r.deep_view() == parse_entries_spec(s@),
{
    let pieces = crate::text::split_on_char(s, ',');
    let ghost pv = pieces.deep_view();
    let n = pieces.len();
    let mut out: Vec<(u16, String)> = Vec::new();
    let mut i: usize = 0;
    while i < n
        invariant
            0 <= i <= n,
            n == pv.len(),
            pieces.deep_view() == pv,
            pv == crate::text::split_spec(s@, ','),
            n == pieces@.len(),
            out@.len() == i,
            forall|j: int| 0 <= j < i ==> (#[trigger] parse_entry_spec(pv[j])) is Some,
            forall|j: int|
                0 <= j < i ==> #[trigger] out.deep_view()[j] == parse_entry_spec(pv[j]).unwrap(),
        decreases n - i,
    {
        proof {
            assert(pieces@[i as int]@ == pv[i as int]);
        }
        match parse_entry(pieces[i].as_str()) {
            Some(e) => {
                let ghost prev = out.deep_view();
                out.push(e);
                proof {
                    assert(out.deep_view() =~= prev.push(
                        (e.0, e.1@),
                    ));
                }
            },
            None => {
                proof {
                    assert(parse_entry_spec(pv[i as int]) is None);
                }
                return None;
            },
        }
        i = i + 1;
    }
    proof {
        assert(out.deep_view() =~= Seq::new(pv.len(), |j: int| parse_entry_spec(pv[j]).unwrap()));
    }
    Some(out)
}

/// Parses one record line of the index format.
pub fn parse_index_line(line: &str) -> (r: Option<(String, Vec<(u16, String)>)>)
    ensures
        r.deep_view() == parse_line_spec(line@),
{
    let llen = line.unicode_len();
    let i = crate::text::find_char(line, '\t');
    if i == 0 || i >= llen {
        return None;
    }
    if !key_is_wf(line, i) {
        return None;
    }
    let key = line.substring_char(0, i);
    proof {
        assert(key@ =~= line@.take(i as int));
    }
    let rest = line.substring_char(i + 1, llen);
    proof {
        assert(rest@ =~= line@.skip(i + 1));
    }
    match parse_entries(rest) {
        Some(es) => Some((String::from_str(key), es)),
        None => None,
    }
}

/// Parses a whole index file. Empty lines are skipped; any other line
/// that is not a record makes the whole load fail, naming the line.
pub fn parse_file(input: &str) -> (r: Result<IndexTable, IndexParseError>)
    ensures
        match r {
            Ok(t) => parse_table_spec(input@) == Some(t@) && t.wf(),
            Err(_) => parse_table_spec(input@) is None,
        },
{
    let ls = crate::text::lines_of(input);
    let ghost lv = ls.deep_view();
    let n = ls.len();
    let mut out: Vec<(String, Vec<(u16, String)>)> = Vec::new();
    let mut i: usize = 0;
    proof {
        assert(lv.skip(0) =~= lv);
    }
    while i < n
        invariant
            0 <= i <= n,
            n == lv.len(),
            ls.deep_view() == lv,
            n == ls@.len(),
            lv == crate::text::lines_spec(input@),
            wf_records(out.deep_view()),
            forall|rs: Seq<IndexRecord>| #[trigger]
                parse_lines_spec(lv.skip(i as int)) == Some(rs) ==> parse_lines_spec(lv)
                    == Some(out.deep_view() + rs),
            parse_lines_spec(lv.skip(i as int)) is None ==> parse_lines_spec(lv) is None,
        decreases n - i,
    {
        proof {
            assert(ls@[i as int]@ == lv[i as int]);
            assert(lv.skip(i as int)[0] == lv[i as int]);
            assert(lv.skip(i as int).skip(1) =~= lv.skip(i + 1));
        }
        let llen = ls[i].as_str().unicode_len();
        if llen == 0 || crate::text::find_char(ls[i].as_str(), '\t') == llen {
            i = i + 1;
            continue ;
        }
        match parse_index_line(ls[i].as_str()) {
            Some(rec) => {
                let ghost prev = out.deep_view();
                let ghost rv = (rec.0@, rec.1.deep_view());
                proof {
                    assert(parse_line_spec(lv[i as int]) == Some(rv));
                    assert(wf_key(rv.0));
                    assert(rv.1.len() > 0) by {
                        let es = lv[i as int].skip(find_idx(lv[i as int], '\t', 0) + 1);
                        assert(crate::text::split_spec(es, ',').len() > 0);
                    }
                }
                out.push(rec);
                proof {
                    assert(out.deep_view() =~= prev.push(rv));
                    assert(wf_record(rv)) by {
                        let es = rv.1;
                        assert(forall|k: int|
                            0 <= k < es.len() ==> wf_entry_label((#[trigger] es[k]).1)) by {
                            let pieces = crate::text::split_spec(
                                lv[i as int].skip(find_idx(lv[i as int], '\t', 0) + 1),
                                ',',
                            );
                            assert(forall|k: int|
                                0 <= k < pieces.len() ==> (#[trigger] parse_entry_spec(
                                    pieces[k],
                                )) is Some);
                            assert(forall|k: int|
                                0 <= k < es.len() ==> #[trigger] es[k] == parse_entry_spec(
                                    pieces[k],
                                ).unwrap());
                        }
                    }
                    assert(forall|rs: Seq<IndexRecord>| #[trigger]
                        parse_lines_spec(lv.skip(i + 1)) == Some(rs) ==> parse_lines_spec(
                            lv.skip(i as int),
                        ) == Some(seq![rv] + rs));
                    assert(forall|rs: Seq<IndexRecord>|
                        parse_lines_spec(lv.skip(i + 1)) == Some(rs) ==> prev.push(rv) + rs
                            =~= prev + (seq![rv] + rs));
                }
            },
            None => {
                proof {
                    assert(parse_line_spec(lv[i as int]) is None);
                    assert(parse_lines_spec(lv.skip(i as int)) is None);
                }
                return Err(IndexParseError { line_number: i });
            },
        }
        i = i + 1;
    }
    proof {
        assert(lv.skip(n as int) =~= Seq::<Seq<char>>::empty());
        assert(parse_lines_spec(lv.skip(n as int)) == Some(Seq::<IndexRecord>::empty()));
        assert(out.deep_view() + Seq::<IndexRecord>::empty() =~= out.deep_view());
    }
    let t = IndexTable { entries: out };
    Ok(t)
}

/// `c` occurs nowhere in `s`.
pub open spec fn no_char(s: Seq<char>, c: char) -> bool {
    forall|i: int| 0 <= i < s.len() ==> s[i] != c
}

/// In `a + [c] + b` with `c` absent from `a`, the first `c` sits at
/// `a.len()`.
proof fn lemma_find_first_in_concat(a: Seq<char>, c: char, b: Seq<char>)
    requires
        no_char(a, c),
    ensures
        find_idx(a + seq![c] + b, c, 0) == a.len(),
{
    let s = a + seq![c] + b;
    crate::text::lemma_find_idx(s, c, 0);
    let f = find_idx(s, c, 0);
    assert(s[a.len() as int] == c);
    if f < a.len() {
        assert(s[f] == a[f]);
    } else if f > a.len() {
        assert(s[a.len() as int] != c);
    }
}

proof fn lemma_no_char_in_join(pieces: Seq<Seq<char>>, sep: char, c: char)
    requires
        c != sep,
        forall|i: int| 0 <= i < pieces.len() ==> no_char(#[trigger] pieces[i], c),
    ensures
        no_char(join_spec(pieces, seq![sep]), c),
    decreases pieces.len(),
{
    if pieces.len() == 0 {
    } else if pieces.len() == 1 {
        assert(join_spec(pieces, seq![sep]) == pieces[0]);
    } else {
        lemma_no_char_in_join(pieces.skip(1), sep, c);
        let j = join_spec(pieces, seq![sep]);
        assert(j == pieces[0] + seq![sep] + join_spec(pieces.skip(1), seq![sep]));
        assert(forall|i: int| 0 <= i < j.len() ==> j[i] != c) by {
            let tail = join_spec(pieces.skip(1), seq![sep]);
            assert(forall|i: int| 0 <= i < pieces[0].len() ==> #[trigger] j[i] == pieces[0][i]);
            assert(j[pieces[0].len() as int] == sep);
            assert(forall|i: int|
                pieces[0].len() + 1 <= i < j.len() ==> #[trigger] j[i] == tail[i - pieces[0].len()
                    - 1]);
        }
    }
}

/// Splitting a separator-joined list recovers the pieces, provided no
/// piece holds the separator.
proof fn lemma_split_join(pieces: Seq<Seq<char>>, sep: char)
    requires
        pieces.len() >= 1,
        forall|i: int| 0 <= i < pieces.len() ==> no_char(#[trigger] pieces[i], sep),
    ensures
        crate::text::split_spec(join_spec(pieces, seq![sep]), sep) == pieces,
    decreases pieces.len(),
{
    let j = join_spec(pieces, seq![sep]);
    if pieces.len() == 1 {
        assert(j == pieces[0]);
        crate::text::lemma_find_idx(j, sep, 0);
        let f = find_idx(j, sep, 0);
        if f < j.len() {
            assert(j[f] != sep);
        }
        assert(crate::text::split_spec(j, sep) =~= pieces);
    } else {
        let rest = join_spec(pieces.skip(1), seq![sep]);
        assert(j == pieces[0] + seq![sep] + rest);
        lemma_find_first_in_concat(pieces[0], sep, rest);
        let i = pieces[0].len() as int;
        assert(find_idx(j, sep, 0) == i);
        assert(i < j.len());
        assert(j.take(i) =~= pieces[0]);
        assert(j.skip(i + 1) =~= rest);
        assert(forall|k: int|
            0 <= k < pieces.skip(1).len() ==> no_char(#[trigger] pieces.skip(1)[k], sep));
        lemma_split_join(pieces.skip(1), sep);
        assert(crate::text::split_spec(j, sep) == seq![pieces[0]] + pieces.skip(1));
        assert(seq![pieces[0]] + pieces.skip(1) =~= pieces);
    }
}

proof fn lemma_digit_chars_plain(ds: Seq<char>)
    requires
        all_digits(ds),
    ensures
        no_char(ds, ':'),
        no_char(ds, ','),
        no_char(ds, '\n'),
        no_char(ds, '\r'),
        no_char(ds, '\t'),
{
    assert(forall|i: int|
        0 <= i < ds.len() ==> crate::text::is_digit_char(#[trigger] ds[i]) && ds[i] != ':'
            && ds[i] != ',' && ds[i] != '\n' && ds[i] != '\r' && ds[i] != '\t');
}

/// A serialized entry parses back to itself.
proof fn lemma_parse_entry_ser(e: (u16, Seq<char>))
    requires
        wf_entry_label(e.1),
    ensures
        parse_entry_spec(ser_entry(e)) == Some(e),
        no_char(ser_entry(e), ','),
        no_char(ser_entry(e), '\n'),
        no_char(ser_entry(e), '\r'),
        ser_entry(e).len() >= 3,
{
    let ds = dec_digits(e.0 as nat);
    crate::text::lemma_dec_digits_roundtrip(e.0 as nat);
    lemma_digit_chars_plain(ds);
    let s = ser_entry(e);
    lemma_find_first_in_concat(ds, ':', e.1);
    let j = ds.len() as int;
    assert(find_idx(s, ':', 0) == j);
    assert(j >= 1);
    assert(j < s.len());
    assert(s.take(j) =~= ds);
    assert(s.skip(j + 1) =~= e.1);
    assert(digits_val(ds) == e.0 as nat);
    assert(parse_entry_spec(s) == Some((e.0, e.1)));
    assert(Some((e.0, e.1)) == Some(e));
    assert(forall|i: int| 0 <= i < s.len() ==> s[i] != ',' && s[i] != '\n' && s[i] != '\r') by {
        assert(forall|i: int| 0 <= i < j ==> #[trigger] s[i] == ds[i]);
        assert(s[j] == ':');
        assert(forall|i: int| j + 1 <= i < s.len() ==> #[trigger] s[i] == e.1[i - j - 1]);
    }
}

/// A serialized entry list parses back to itself.
proof fn lemma_parse_entries_ser(es: Seq<(u16, Seq<char>)>)
    requires
        es.len() >= 1,
        forall|i: int| 0 <= i < es.len() ==> wf_entry_label((#[trigger] es[i]).1),
    ensures
        parse_entries_spec(ser_entries(es)) == Some(es),
        no_char(ser_entries(es), '\n'),
        no_char(ser_entries(es), '\r'),
        ser_entries(es).len() >= 3,
{
    let pieces = es.map_values(|e: (u16, Seq<char>)| ser_entry(e));
    assert forall|i: int| 0 <= i < pieces.len() implies no_char(#[trigger] pieces[i], ',')
        && no_char(pieces[i], '\n') && no_char(pieces[i], '\r') by {
        lemma_parse_entry_ser(es[i]);
    }
    lemma_split_join(pieces, ',');
    let s = ser_entries(es);
    assert(crate::text::split_spec(s, ',') == pieces);
    assert forall|i: int|
        0 <= i < pieces.len() implies (#[trigger] parse_entry_spec(pieces[i])) == Some(es[i]) by {
        lemma_parse_entry_ser(es[i]);
    }
    assert(Seq::new(pieces.len(), |i: int| parse_entry_spec(pieces[i]).unwrap()) =~= es);
    lemma_no_char_in_join(pieces, ',', '\n');
    lemma_no_char_in_join(pieces, ',', '\r');
    assert(s.len() >= 3) by {
        lemma_parse_entry_ser(es[0]);
        if es.len() == 1 {
            assert(s == pieces[0]);
        } else {
            assert(s == pieces[0] + seq![','] + join_spec(pieces.skip(1), seq![',']));
        }
    }
}

/// A serialized record line parses back to itself.
proof fn lemma_parse_line_ser(r: IndexRecord)
    requires
        wf_record(r),
    ensures
        parse_line_spec(ser_record(r)) == Some(r),
        no_char(ser_record(r), '\n'),
        no_char(ser_record(r), '\r'),
        ser_record(r).len() >= 1,
        find_idx(ser_record(r), '\t', 0) == r.0.len(),
        r.0.len() < ser_record(r).len(),
{
    let s = ser_record(r);
    lemma_parse_entries_ser(r.1);
    let es = ser_entries(r.1);
    assert(no_char(r.0, '\t'));
    lemma_find_first_in_concat(r.0, '\t', es);
    let i = r.0.len() as int;
    assert(find_idx(s, '\t', 0) == i);
    assert(i >= 1);
    assert(i < s.len());
    assert(s.take(i) =~= r.0);
    assert(s.skip(i + 1) =~= es);
    assert(parse_line_spec(s) == Some((r.0, r.1)));
    assert(Some((r.0, r.1)) == Some(r));
    assert(forall|k: int| 0 <= k < s.len() ==> s[k] != '\n' && s[k] != '\r') by {
        assert(forall|k: int| 0 <= k < i ==> #[trigger] s[k] == r.0[k]);
        assert(s[i] == '\t');
        assert(forall|k: int| i + 1 <= k < s.len() ==> #[trigger] s[k] == es[k - i - 1]);
    }
}

/// The serialized table splits back into exactly its record lines.
proof fn lemma_lines_of_ser(rs: Seq<IndexRecord>)
    requires
        wf_records(rs),
    ensures
        crate::text::lines_spec(ser_table(rs)) == rs.map_values(|r: IndexRecord| ser_record(r)),
    decreases rs.len(),
{
    if rs.len() == 0 {
        assert(crate::text::lines_spec(ser_table(rs)) =~= rs.map_values(
            |r: IndexRecord| ser_record(r),
        ));
    } else {
        lemma_parse_line_ser(rs[0]);
        let line = ser_record(rs[0]);
        let rest = ser_table(rs.skip(1));
        let s = ser_table(rs);
        assert(s == line + seq!['\n'] + rest);
        lemma_find_first_in_concat(line, '\n', rest);
        let i = line.len() as int;
        assert(find_idx(s, '\n', 0) == i);
        assert(i < s.len());
        assert(s[i - 1] == line[i - 1]);
        assert(s[i - 1] != '\r');
        assert(s.take(i) =~= line);
        assert(s.skip(i + 1) =~= rest);
        assert(forall|k: int| 0 <= k < rs.skip(1).len() ==> wf_record(#[trigger] rs.skip(1)[k]));
        lemma_lines_of_ser(rs.skip(1));
        assert(crate::text::lines_spec(s) == seq![line] + rs.skip(1).map_values(
            |r: IndexRecord| ser_record(r),
        ));
        assert(seq![line] + rs.skip(1).map_values(|r: IndexRecord| ser_record(r)) =~= rs.map_values(
            |r: IndexRecord| ser_record(r),
        ));
    }
}

proof fn lemma_parse_lines_ser(rs: Seq<IndexRecord>)
    requires
        wf_records(rs),
    ensures
        parse_lines_spec(rs.map_values(|r: IndexRecord| ser_record(r))) == Some(rs),
    decreases rs.len(),
{
    let ls = rs.map_values(|r: IndexRecord| ser_record(r));
    if rs.len() == 0 {
        assert(ls.len() == 0);
    } else {
        lemma_parse_line_ser(rs[0]);
        assert(ls[0] == ser_record(rs[0]));
        assert(ls[0].len() > 0);
        assert(forall|k: int| 0 <= k < rs.skip(1).len() ==> wf_record(#[trigger] rs.skip(1)[k]));
        lemma_parse_lines_ser(rs.skip(1));
        assert(ls.skip(1) =~= rs.skip(1).map_values(|r: IndexRecord| ser_record(r)));
        assert(parse_lines_spec(ls) == Some(seq![rs[0]] + rs.skip(1)));
        assert(seq![rs[0]] + rs.skip(1) =~= rs);
    }
}

/// Round trip: parsing a serialized well-formed table yields exactly the
/// records that were written, in order.
pub proof fn lemma_index_round_trip(rs: Seq<IndexRecord>)
    requires
        wf_records(rs),
    ensures
        parse_table_spec(ser_table(rs)) == Some(rs),
{
    lemma_lines_of_ser(rs);
    lemma_parse_lines_ser(rs);
}

proof fn lemma_ser_table_snoc(rs: Seq<IndexRecord>, x: IndexRecord)
    ensures
        ser_table(rs.push(x)) == ser_table(rs) + ser_record(x) + seq!['\n'],
    decreases rs.len(),
{
    if rs.len() == 0 {
        assert(rs.push(x)[0] == x);
        assert(rs.push(x).skip(1) =~= Seq::<IndexRecord>::empty());
        assert(ser_table(rs.push(x)) == ser_record(x) + seq!['\n'] + ser_table(
            Seq::<IndexRecord>::empty(),
        ));
        assert(ser_record(x) + seq!['\n'] + Seq::<char>::empty() =~= Seq::<char>::empty()
            + ser_record(x) + seq!['\n']);
    } else {
        assert(rs.push(x)[0] == rs[0]);
        assert(rs.push(x).skip(1) =~= rs.skip(1).push(x));
        lemma_ser_table_snoc(rs.skip(1), x);
        assert(ser_table(rs.push(x)) == ser_record(rs[0]) + seq!['\n'] + (ser_table(rs.skip(1))
            + ser_record(x) + seq!['\n']));
        assert(ser_record(rs[0]) + seq!['\n'] + (ser_table(rs.skip(1)) + ser_record(x)
            + seq!['\n']) =~= (ser_record(rs[0]) + seq!['\n'] + ser_table(rs.skip(1)))
            + ser_record(x) + seq!['\n']);
    }
}

} // verus!
