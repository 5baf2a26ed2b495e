//! A side-effect-free scanner for `import` statements in JVM source
//! files: each import line yields its dotted prefix and a selector — a
//! brace list, a wildcard, or a plain import.

use vstd::prelude::*;
use vstd::string::StrSliceExecFns;
use vstd::string::StringExecFns;

verus! {

/// Whether a character has the Unicode alphanumeric property; the meaning
/// of `char::is_alphanumeric`.
pub uninterp spec fn char_alphanumeric(c: char) -> bool;

/// Relies on char::is_alphanumeric: the answer depends on the character
/// alone; ASCII letters and digits are alphanumeric, ASCII punctuation
/// and spaces are not.
pub assume_specification[ char::is_alphanumeric ](c: char) -> (r: bool)
    ensures
        r == char_alphanumeric(c),
        ('a' <= c && c <= 'z') || ('A' <= c && c <= 'Z') || ('0' <= c && c <= '9') ==> r,
        c == '.' || c == '_' || c == '{' || c == '}' || c == ',' || c == ' ' || c == '\t'
            ==> !r,
;

pub open spec fn is_ascii_alnum(c: char) -> bool {
    ('a' <= c && c <= 'z') || ('A' <= c && c <= 'Z') || ('0' <= c && c <= '9')
}

/// A character an import-path segment may continue with.
pub open spec fn is_seg_char(c: char) -> bool {
    char_alphanumeric(c) || c == '_'
}

pub open spec fn is_line_ws(c: char) -> bool {
    c == ' ' || c == '\t'
}

/// First index at or after `i` holding something other than spaces and
/// tabs, or the line's length.
pub open spec fn ws_to(s: Seq<char>, i: int) -> int
    decreases s.len() - i + 1,
{
    if i < 0 || i >= s.len() {
        s.len() as int
    } else if is_line_ws(s[i]) {
        ws_to(s, i + 1)
    } else {
        i
    }
}

pub proof fn lemma_ws_to(s: Seq<char>, i: int)
    requires
        0 <= i <= s.len(),
    ensures
        i <= ws_to(s, i) <= s.len(),
        ws_to(s, i) < s.len() ==> !is_line_ws(s[ws_to(s, i)]),
        forall|j: int| i <= j < ws_to(s, i) ==> is_line_ws(s[j]),
    decreases s.len() - i + 1,
{
    if i < s.len() && is_line_ws(s[i]) {
        lemma_ws_to(s, i + 1);
    }
}

/// End of the segment-character run starting at `i`.
pub open spec fn run_to(s: Seq<char>, i: int) -> int
    decreases s.len() - i + 1,
{
    if i < 0 || i >= s.len() {
        s.len() as int
    } else if is_seg_char(s[i]) {
        run_to(s, i + 1)
    } else {
        i
    }
}

pub proof fn lemma_run_to(s: Seq<char>, i: int)
    requires
        0 <= i <= s.len(),
    ensures
        i <= run_to(s, i) <= s.len(),
        run_to(s, i) < s.len() ==> !is_seg_char(s[run_to(s, i)]),
        forall|j: int| i <= j < run_to(s, i) ==> is_seg_char(s[j]),
    decreases s.len() - i + 1,
{
    if i < s.len() && is_seg_char(s[i]) {
        lemma_run_to(s, i + 1);
    }
}

/// End of the ASCII-alphanumeric run starting at `i`.
pub open spec fn alnum_run_to(s: Seq<char>, i: int) -> int
    decreases s.len() - i + 1,
{
    if i < 0 || i >= s.len() {
        s.len() as int
    } else if is_ascii_alnum(s[i]) {
        alnum_run_to(s, i + 1)
    } else {
        i
    }
}

pub proof fn lemma_alnum_run_to(s: Seq<char>, i: int)
    requires
        0 <= i <= s.len(),
    ensures
        i <= alnum_run_to(s, i) <= s.len(),
        alnum_run_to(s, i) < s.len() ==> !is_ascii_alnum(s[alnum_run_to(s, i)]),
        forall|j: int| i <= j < alnum_run_to(s, i) ==> is_ascii_alnum(s[j]),
    decreases s.len() - i + 1,
{
    if i < s.len() && is_ascii_alnum(s[i]) {
        lemma_alnum_run_to(s, i + 1);
    }
}

/// End of the dotted import prefix whose first segment starts at `i`: a
/// dot continues the prefix only when an ASCII-alphanumeric segment
/// follows it directly.
pub open spec fn prefix_to(s: Seq<char>, i: int) -> int
    decreases s.len() - i,
    via prefix_to_decreases
{
    if i < 0 || i >= s.len() || !is_ascii_alnum(s[i]) {
        i
    } else {
        let e = run_to(s, i + 1);
        if e + 1 < s.len() && s[e] == '.' && is_ascii_alnum(s[e + 1]) {
            prefix_to(s, e + 1)
        } else {
            e
        }
    }
}

#[via_fn]
proof fn prefix_to_decreases(s: Seq<char>, i: int) {
    if 0 <= i < s.len() && is_ascii_alnum(s[i]) {
        lemma_run_to(s, i + 1);
    }
}

pub proof fn lemma_prefix_to(s: Seq<char>, i: int)
    requires
        0 <= i <= s.len(),
    ensures
        i <= prefix_to(s, i) <= s.len(),
        0 <= i < s.len() && is_ascii_alnum(s[i]) ==> prefix_to(s, i) > i,
    decreases s.len() - i,
{
    if 0 <= i < s.len() && is_ascii_alnum(s[i]) {
        lemma_run_to(s, i + 1);
        let e = run_to(s, i + 1);
        if e + 1 < s.len() && s[e] == '.' && is_ascii_alnum(s[e + 1]) {
            lemma_prefix_to(s, e + 1);
        }
    }
}

/// The names of a brace selector list starting at `i`, with the index just
/// past the list (before the closing brace); commas between names are
/// optional.
pub open spec fn items_spec(s: Seq<char>, i: int) -> Option<(Seq<Seq<char>>, int)>
    decreases s.len() - i,
    via items_spec_decreases
{
    let j = ws_to(s, i);
    if j >= s.len() || !is_ascii_alnum(s[j]) {
        None
    } else {
        let e = alnum_run_to(s, j + 1);
        let name = s.subrange(j, e);
        let k = ws_to(s, e);
        let k2 = if k < s.len() && s[k] == ',' {
            ws_to(s, k + 1)
        } else {
            k
        };
        if k2 < s.len() && is_ascii_alnum(s[k2]) {
            match items_spec(s, k2) {
                Some((rest, fin)) => Some((seq![name] + rest, fin)),
                None => None,
            }
        } else {
            Some((seq![name], k2))
        }
    }
}

#[via_fn]
proof fn items_spec_decreases(s: Seq<char>, i: int) {
    if 0 <= i <= s.len() {
        lemma_ws_to(s, i);
        let j = ws_to(s, i);
        if j < s.len() && is_ascii_alnum(s[j]) {
            lemma_alnum_run_to(s, j + 1);
            let e = alnum_run_to(s, j + 1);
            lemma_ws_to(s, e);
            let k = ws_to(s, e);
            if k < s.len() && s[k] == ',' {
                lemma_ws_to(s, k + 1);
            }
        }
    } else if i < 0 {
        assert(ws_to(s, i) == s.len());
    } else {
        assert(ws_to(s, i) == s.len());
    }
}

/// The selector of one import, as the contracts speak of it.
pub enum SelectorView {
    List(Seq<Seq<char>>),
    Wildcard,
    Plain,
}

/// The parse of one import line: the dotted prefix and the selector, or
/// nothing when the line is not a well-formed import statement.
pub open spec fn parse_import_spec(line: Seq<char>) -> Option<(Seq<char>, SelectorView)> {
    let w0 = ws_to(line, 0);
    if !(w0 + 6 < line.len() && line.subrange(w0, w0 + 6) == "import"@ && is_line_ws(
        line[w0 + 6],
    )) {
        None
    } else {
        let p0 = ws_to(line, w0 + 6);
        if p0 >= line.len() || !is_ascii_alnum(line[p0]) {
            None
        } else {
            let pe = prefix_to(line, p0);
            let prefix = line.subrange(p0, pe);
            let q = ws_to(line, pe);
            if q < line.len() && line[q] == '.' {
                let w = ws_to(line, q + 1);
                if w < line.len() && line[w] == '{' {
                    match items_spec(line, w + 1) {
                        Some((names, fin)) => if fin < line.len() && line[fin] == '}' {
                            Some((prefix, SelectorView::List(names)))
                        } else {
                            None
                        },
                        None => None,
                    }
                } else if q + 1 < line.len() && (line[q + 1] == '_' || line[q + 1] == '*') {
                    Some((prefix, SelectorView::Wildcard))
                } else {
                    Some((prefix, SelectorView::Plain))
                }
            } else {
                Some((prefix, SelectorView::Plain))
            }
        }
    }
}

/// An import's selector: an explicit brace list of names, a wildcard, or
/// a plain dotted import.
#[derive(Debug, PartialEq)]
pub enum SelectorType {
    SelectorList(Vec<String>),
    WildcardSelector(),
    NoSelector(),
}

/// One import statement: the line it sits on, its dotted prefix, and its
/// selector.
#[derive(Debug, PartialEq)]
pub struct Import {
    pub line_number: u32,
    pub prefix_section: String,
    pub suffix: SelectorType,
}

/// A scan that found a line with `import` it could not read.
#[derive(Debug, PartialEq, Eq, Structural)]
pub enum Error {
    UnreadableImportLine(u32),
}

pub open spec fn selector_view(s: SelectorType) -> SelectorView {
    match s {
        SelectorType::SelectorList(v) => SelectorView::List(v.deep_view()),
        SelectorType::WildcardSelector() => SelectorView::Wildcard,
        SelectorType::NoSelector() => SelectorView::Plain,
    }
}

pub open spec fn import_view(i: Import) -> (int, Seq<char>, SelectorView) {
    (i.line_number as int, i.prefix_section@, selector_view(i.suffix))
}

fn ws_idx(s: &str, from: usize) -> (r: usize)
    requires
        from <= s@.len(),
    ensures
        r as int == ws_to(s@, from as int),
        from <= r <= s@.len(),
{
    proof {
        lemma_ws_to(s@, from as int);
    }
    let slen = s.unicode_len();
    let mut i: usize = from;
    while i < slen
        invariant
            from <= i <= slen,
            slen == s@.len(),
            forall|j: int| from <= j < i ==> is_line_ws(s@[j]),
        decreases slen - i,
    {
        let c = s.get_char(i);
        if !(c == ' ' || c == '\t') {
            proof {
                lemma_ws_to(s@, from as int);
                let w = ws_to(s@, from as int);
                if w < i {
                    assert(is_line_ws(s@[w]));
                } else if w > i {
                    assert(is_line_ws(s@[i as int]));
                }
            }
            return i;
        }
        i = i + 1;
    }
    proof {
        lemma_ws_to(s@, from as int);
        let w = ws_to(s@, from as int);
        if w < slen {
            assert(is_line_ws(s@[w]));
        }
    }
    slen
}

fn seg_run_idx(s: &str, from: usize) -> (r: usize)
    requires
        from <= s@.len(),
    ensures
        r as int == run_to(s@, from as int),
        from <= r <= s@.len(),
{
    proof {
        lemma_run_to(s@, from as int);
    }
    let slen = s.unicode_len();
    let mut i: usize = from;
    while i < slen
        invariant
            from <= i <= slen,
            slen == s@.len(),
            forall|j: int| from <= j < i ==> is_seg_char(s@[j]),
        decreases slen - i,
    {
        let c = s.get_char(i);
        if !(c.is_alphanumeric() || c == '_') {
            proof {
                lemma_run_to(s@, from as int);
                let w = run_to(s@, from as int);
                if w < i {
                    assert(is_seg_char(s@[w]));
                } else if w > i {
                    assert(is_seg_char(s@[i as int]));
                }
            }
            return i;
        }
        i = i + 1;
    }
    proof {
        lemma_run_to(s@, from as int);
        let w = run_to(s@, from as int);
        if w < slen {
            assert(is_seg_char(s@[w]));
        }
    }
    slen
}

fn is_alnum_char(c: char) -> (r: bool)
    ensures
        r == is_ascii_alnum(c),
{
    ('a' <= c && c <= 'z') || ('A' <= c && c <= 'Z') || ('0' <= c && c <= '9')
}

fn alnum_run_idx(s: &str, from: usize) -> (r: usize)
    requires
        from <= s@.len(),
    ensures
        r as int == alnum_run_to(s@, from as int),
        from <= r <= s@.len(),
{
    proof {
        lemma_alnum_run_to(s@, from as int);
    }
    let slen = s.unicode_len();
    let mut i: usize = from;
    while i < slen
        invariant
            from <= i <= slen,
            slen == s@.len(),
            forall|j: int| from <= j < i ==> is_ascii_alnum(s@[j]),
        decreases slen - i,
    {
        let c = s.get_char(i);
        if !is_alnum_char(c) {
            proof {
                lemma_alnum_run_to(s@, from as int);
                let w = alnum_run_to(s@, from as int);
                if w < i {
                    assert(is_ascii_alnum(s@[w]));
                } else if w > i {
                    assert(is_ascii_alnum(s@[i as int]));
                }
            }
            return i;
        }
        i = i + 1;
    }
    proof {
        lemma_alnum_run_to(s@, from as int);
        let w = alnum_run_to(s@, from as int);
        if w < slen {
            assert(is_ascii_alnum(s@[w]));
        }
    }
    slen
}

fn prefix_idx(s: &str, from: usize) -> (r: usize)
    requires
        from <= s@.len(),
    ensures
        r as int == prefix_to(s@, from as int),
        from <= r <= s@.len(),
{
    proof {
        lemma_prefix_to(s@, from as int);
    }
    let slen = s.unicode_len();
    if from == slen || !is_alnum_char(s.get_char(from)) {
        return from;
    }
    let mut i: usize = from;
    loop
        invariant
            from <= i < slen,
            slen == s@.len(),
            is_ascii_alnum(s@[i as int]),
            prefix_to(s@, from as int) == prefix_to(s@, i as int),
        decreases slen - i,
    {
        let e = seg_run_idx(s, i + 1);
        proof {
            lemma_run_to(s@, i + 1);
        }
        if e < slen && s.get_char(e) == '.' && e + 1 < slen && is_alnum_char(s.get_char(e + 1)) {
            i = e + 1;
        } else {
            proof {
                assert(prefix_to(s@, i as int) == e);
            }
            return e;
        }
    }
}

fn parse_items(s: &str, from: usize) -> (r: Option<(Vec<String>, usize)>)
    requires
        from <= s@.len(),
    ensures
        match r {
            Some(p) => items_spec(s@, from as int) == Some((p.0.deep_view(), p.1 as int)) && p.1
                <= s@.len(),
            None => items_spec(s@, from as int) is None,
        },
{
    let slen = s.unicode_len();
    let mut acc: Vec<String> = Vec::new();
    let mut cur: usize = from;
    proof {
        assert(opt_items_prepend(acc.deep_view(), items_spec(s@, cur as int)) == items_spec(
            s@,
            from as int,
        ));
    }
    loop
        invariant
            cur <= slen,
            slen == s@.len(),
            opt_items_prepend(acc.deep_view(), items_spec(s@, cur as int)) == items_spec(
                s@,
                from as int,
            ),
        decreases slen - cur,
    {
        let j = ws_idx(s, cur);
        if j == slen {
            return None;
        }
        if !is_alnum_char(s.get_char(j)) {
            return None;
        }
        let e = alnum_run_idx(s, j + 1);
        let name = String::from_str(s.substring_char(j, e));
        let k = ws_idx(s, e);
        let k2 = if k < slen && s.get_char(k) == ',' {
            ws_idx(s, k + 1)
        } else {
            k
        };
        let ghost prev = acc.deep_view();
        acc.push(name);
        proof {
            assert(acc.deep_view() =~= prev.push(s@.subrange(j as int, e as int)));
        }
        if k2 < slen && is_alnum_char(s.get_char(k2)) {
            proof {
                lemma_items_prepend_step(s@, cur as int, prev, k2 as int);
                lemma_ws_to(s@, cur as int);
            }
            let ghost old_cur = cur;
            cur = k2;
            proof {
                assert(k2 > old_cur) by {
                    lemma_ws_to(s@, old_cur as int);
                    lemma_alnum_run_to(s@, j + 1);
                    lemma_ws_to(s@, e as int);
                    if k < slen && s@[k as int] == ',' {
                        lemma_ws_to(s@, k + 1);
                    }
                }
            }
        } else {
            proof {
                assert(items_spec(s@, cur as int) == Some(
                    (seq![s@.subrange(j as int, e as int)], k2 as int),
                ));
                assert(acc.deep_view() =~= prev + seq![s@.subrange(j as int, e as int)]);
            }
            return Some((acc, k2));
        }
    }
}

/// Prepending already-collected names onto the rest of an item parse.
pub open spec fn opt_items_prepend(
    acc: Seq<Seq<char>>,
    o: Option<(Seq<Seq<char>>, int)>,
) -> Option<(Seq<Seq<char>>, int)> {
    match o {
        Some(p) => Some((acc + p.0, p.1)),
        None => None,
    }
}

proof fn lemma_items_prepend_step(s: Seq<char>, cur: int, acc: Seq<Seq<char>>, k2: int)
    requires
        0 <= cur <= s.len(),
        ({
            let j = ws_to(s, cur);
            j < s.len() && is_ascii_alnum(s[j]) && {
                let e = alnum_run_to(s, j + 1);
                let k = ws_to(s, e);
                let kk = if k < s.len() && s[k] == ',' {
                    ws_to(s, k + 1)
                } else {
                    k
                };
                kk == k2 && k2 < s.len() && is_ascii_alnum(s[k2])
            }
        }),
    ensures
        opt_items_prepend(acc, items_spec(s, cur)) == opt_items_prepend(
            acc.push(s.subrange(ws_to(s, cur), alnum_run_to(s, ws_to(s, cur) + 1))),
            items_spec(s, k2),
        ),
{
    let j = ws_to(s, cur);
    let e = alnum_run_to(s, j + 1);
    let name = s.subrange(j, e);
    match items_spec(s, k2) {
        Some(p) => {
            assert(items_spec(s, cur) == Some((seq![name] + p.0, p.1)));
            assert(acc + (seq![name] + p.0) =~= acc.push(name) + p.0);
        },
        None => {
            assert(items_spec(s, cur) is None);
        },
    }
}

impl Import {
    /// Whether a character may continue an import-path segment.
    pub fn is_valid_import_segment_item(c: char) -> (r: bool)
        ensures
            r == is_seg_char(c),
    {
        c.is_alphanumeric() || c == '_'
    }

    /// Whether a character sits before the end of its line.
    pub fn not_end_of_line(chr: char) -> (r: bool)
        ensures
            r == (chr != '\n' && chr != '\r'),
    {
        chr != '\n' && chr != '\r'
    }
}

/// Parses the import statement at the start of `line`, reporting the
/// statement's dotted prefix and selector.
pub fn parse_import(line_number: u32, input: &str) -> (r: Option<Import>)
    ensures
        match r {
            Some(im) => parse_import_spec(input@) == Some(
                (im.prefix_section@, selector_view(im.suffix)),
            ) && im.line_number == line_number,
            None => parse_import_spec(input@) is None,
        },
{
    let slen = input.unicode_len();
    let w0 = ws_idx(input, 0);
    if slen <= 6 || w0 > slen - 7 {
        proof {
            assert(!(ws_to(input@, 0) + 6 < input@.len()));
        }
        return None;
    }
    let kw = input.substring_char(w0, w0 + 6);
    proof {
        assert(kw@ =~= input@.subrange(w0 as int, w0 + 6));
    }
    if !crate::text::str_eq(kw, "import") {
        return None;
    }
    let c6 = input.get_char(w0 + 6);
    if !(c6 == ' ' || c6 == '\t') {
        return None;
    }
    let p0 = ws_idx(input, w0 + 6);
    if p0 == slen {
        return None;
    }
    if !is_alnum_char(input.get_char(p0)) {
        return None;
    }
    let pe = prefix_idx(input, p0);
    proof {
        lemma_prefix_to(input@, p0 as int);
    }
    let prefix = String::from_str(input.substring_char(p0, pe));
    proof {
        assert(prefix@ =~= input@.subrange(p0 as int, pe as int));
    }
    let q = ws_idx(input, pe);
    let suffix: SelectorType = if q < slen && input.get_char(q) == '.' {
        let w = ws_idx(input, q + 1);
        if w < slen && input.get_char(w) == '{' {
            match parse_items(input, w + 1) {
                Some((names, fin)) => {
                    if fin < slen && input.get_char(fin) == '}' {
                        SelectorType::SelectorList(names)
                    } else {
                        return None;
                    }
                },
                None => {
                    return None;
                },
            }
        } else if q + 1 < slen && (input.get_char(q + 1) == '_' || input.get_char(q + 1)
            == '*') {
            SelectorType::WildcardSelector()
        } else {
            SelectorType::NoSelector()
        }
    } else {
        SelectorType::NoSelector()
    };
    Some(Import { line_number, prefix_section: prefix, suffix })
}


/// The imports of a file, line by line: every line holding the word
/// `import` must scan as an import statement.
pub open spec fn scan_imports_spec(lines: Seq<Seq<char>>, idx: int) -> Option<
    Seq<(int, Seq<char>, SelectorView)>,
>
    decreases lines.len() - idx + 1,
{
    if idx < 0 || idx >= lines.len() {
        Some(Seq::empty())
    } else {
        let rest = scan_imports_spec(lines, idx + 1);
        if crate::text::contains_sub_spec(lines[idx], "import"@) {
            match (parse_import_spec(lines[idx]), rest) {
                (Some(p), Some(r)) => Some(seq![(idx, p.0, p.1)] + r),
                _ => None,
            }
        } else {
            rest
        }
    }
}

/// Prepending already-scanned imports onto the rest of a scan.
pub open spec fn opt_scan_concat(
    a: Seq<(int, Seq<char>, SelectorView)>,
    o: Option<Seq<(int, Seq<char>, SelectorView)>>,
) -> Option<Seq<(int, Seq<char>, SelectorView)>> {
    match o {
        Some(r) => Some(a + r),
        None => None,
    }
}

impl Import {
    /// Scans a whole file for import statements. Fails, naming the line,
    /// when a line holds the word `import` but does not scan.
    pub fn parse(input: &str) -> (r: Result<Vec<Import>, Error>)
        requires
            crate::text::lines_spec(input@).len() <= u32::MAX,
        ensures
            match r {
                Ok(v) => scan_imports_spec(crate::text::lines_spec(input@), 0) == Some(
                    v@.map_values(|im: Import| import_view(im)),
                ),
                Err(_) => scan_imports_spec(crate::text::lines_spec(input@), 0) is None,
            },
    {
        let ls = crate::text::lines_of(input);
        let ghost lv = ls.deep_view();
        let n = ls.len();
        let mut out: Vec<Import> = Vec::new();
        let mut i: usize = 0;
        proof {
            assert(out@.map_values(|im: Import| import_view(im)) =~= Seq::<
                (int, Seq<char>, SelectorView),
            >::empty());
            assert(opt_scan_concat(
                out@.map_values(|im: Import| import_view(im)),
                scan_imports_spec(lv, 0),
            ) == scan_imports_spec(lv, 0));
        }
        while i < n
            invariant
                0 <= i <= n,
                n == lv.len(),
                ls.deep_view() == lv,
                n == ls@.len(),
                n <= u32::MAX,
                lv == crate::text::lines_spec(input@),
                opt_scan_concat(
                    out@.map_values(|im: Import| import_view(im)),
                    scan_imports_spec(lv, i as int),
                ) == scan_imports_spec(lv, 0),
            decreases n - i,
        {
            proof {
                assert(ls@[i as int]@ == lv[i as int]);
            }
            if crate::text::contains_sub(ls[i].as_str(), "import") {
                match parse_import(i as u32, ls[i].as_str()) {
                    Some(im) => {
                        let ghost prev = out@.map_values(|x: Import| import_view(x));
                        let ghost iv = import_view(im);
                        out.push(im);
                        proof {
                            assert(out@.map_values(|x: Import| import_view(x)) =~= prev.push(iv));
                            match scan_imports_spec(lv, i + 1) {
                                Some(rs) => {
                                    assert(scan_imports_spec(lv, i as int) == Some(seq![iv] + rs));
                                    assert(prev + (seq![iv] + rs) =~= prev.push(iv) + rs);
                                },
                                None => {
                                    assert(scan_imports_spec(lv, i as int) is None);
                                },
                            }
                        }
                    },
                    None => {
                        proof {
                            assert(scan_imports_spec(lv, i as int) is None);
                        }
                        return Err(Error::UnreadableImportLine(i as u32));
                    },
                }
            }
            i = i + 1;
        }
        proof {
            assert(scan_imports_spec(lv, n as int) == Some(Seq::<
                (int, Seq<char>, SelectorView),
            >::empty()));
            assert(out@.map_values(|im: Import| import_view(im)) + Seq::<
                (int, Seq<char>, SelectorView),
            >::empty() =~= out@.map_values(|im: Import| import_view(im)));
        }
        Ok(out)
    }
}

/// A scanned source file: its package, when one was declared, and its
/// imports.
#[derive(Debug, PartialEq)]
pub struct ParsedFile {
    pub package_name: Option<String>,
    pub imports: Vec<Import>,
}

/// The dotted name of the first line declaring a package, when one scans.
pub open spec fn package_of_lines(lines: Seq<Seq<char>>, idx: int) -> Option<Seq<char>>
    decreases lines.len() - idx + 1,
{
    if idx < 0 || idx >= lines.len() {
        None
    } else {
        match parse_package_spec(lines[idx]) {
            Some(p) => Some(p),
            None => package_of_lines(lines, idx + 1),
        }
    }
}

/// The parse of one package-declaration line.
pub open spec fn parse_package_spec(line: Seq<char>) -> Option<Seq<char>> {
    let w0 = ws_to(line, 0);
    if !(w0 + 7 < line.len() && line.subrange(w0, w0 + 7) == "package"@ && is_line_ws(
        line[w0 + 7],
    )) {
        None
    } else {
        let p0 = ws_to(line, w0 + 7);
        if p0 >= line.len() || !is_ascii_alnum(line[p0]) {
            None
        } else {
            Some(line.subrange(p0, prefix_to(line, p0)))
        }
    }
}

fn parse_package_line(line: &str) -> (r: Option<String>)
    ensures
        r.deep_view() == parse_package_spec(line@),
{
    let slen = line.unicode_len();
    let w0 = ws_idx(line, 0);
    if slen <= 7 || w0 > slen - 8 {
        proof {
            assert(!(ws_to(line@, 0) + 7 < line@.len()));
        }
        return None;
    }
    let kw = line.substring_char(w0, w0 + 7);
    proof {
        assert(kw@ =~= line@.subrange(w0 as int, w0 + 7));
    }
    if !crate::text::str_eq(kw, "package") {
        return None;
    }
    let c7 = line.get_char(w0 + 7);
    if !(c7 == ' ' || c7 == '\t') {
        return None;
    }
    let p0 = ws_idx(line, w0 + 7);
    if p0 == slen {
        return None;
    }
    if !is_alnum_char(line.get_char(p0)) {
        return None;
    }
    let pe = prefix_idx(line, p0);
    proof {
        lemma_prefix_to(line@, p0 as int);
    }
    let name = String::from_str(line.substring_char(p0, pe));
    proof {
        assert(name@ =~= line@.subrange(p0 as int, prefix_to(line@, p0 as int)));
    }
    Some(name)
}

/// Scans a source file into its package name and import statements.
pub fn parse_file(input: &str) -> (r: Result<ParsedFile, Error>)
    requires
        crate::text::lines_spec(input@).len() <= u32::MAX,
    ensures
        match r {
            Ok(pf) => scan_imports_spec(crate::text::lines_spec(input@), 0) == Some(
                pf.imports@.map_values(|im: Import| import_view(im)),
            ) && pf.package_name.deep_view() == package_of_lines(
                crate::text::lines_spec(input@),
                0,
            ),
            Err(_) => scan_imports_spec(crate::text::lines_spec(input@), 0) is None,
        },
{
    let imports = match Import::parse(input) {
        Ok(v) => v,
        Err(e) => {
            return Err(e);
        },
    };
    let ls = crate::text::lines_of(input);
    let ghost lv = ls.deep_view();
    let n = ls.len();
    let mut package_name: Option<String> = None;
    let mut i: usize = 0;
    while i < n
        invariant
            0 <= i <= n,
            n == lv.len(),
            ls.deep_view() == lv,
            n == ls@.len(),
            lv == crate::text::lines_spec(input@),
            package_name is None,
            package_of_lines(lv, 0) == package_of_lines(lv, i as int),
            scan_imports_spec(lv, 0) == Some(imports@.map_values(|im: Import| import_view(im))),
        decreases n - i,
    {
        proof {
            assert(ls@[i as int]@ == lv[i as int]);
        }
        match parse_package_line(ls[i].as_str()) {
            Some(p) => {
                package_name = Some(p);
                proof {
                    assert(package_of_lines(lv, i as int) == Some(p@));
                }
                return Ok(ParsedFile { package_name, imports });
            },
            None => {},
        }
        i = i + 1;
    }
    proof {
        assert(package_of_lines(lv, n as int) is None);
    }
    Ok(ParsedFile { package_name, imports })
}

} // verus!
