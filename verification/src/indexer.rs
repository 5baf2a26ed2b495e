//! The offline indexer's logic: building the rule-kind queries, batching
//! them, reading class names out of archive entry lists, and inverting
//! target outputs into the persisted class-to-targets table.

use vstd::prelude::*;
use vstd::string::StrSliceExecFns;
use vstd::string::StringExecFns;

use crate::index_table::IndexRecord;
use crate::index_table::IndexTable;
use crate::patterns::line_group;
use crate::patterns::regex_line_captures;
use crate::text::is_prefix;
use crate::text::join_spec;
use crate::text::join_with;

verus! {

/// One `kind(<kind>, <root>)` query expression.
pub open spec fn rule_query(kind: Seq<char>, root: Seq<char>) -> Seq<char> {
    "kind("@ + kind + ", "@ + root + ")"@
}

/// The full query list: for each root, one query per rule kind.
pub open spec fn rule_queries_spec(kinds: Seq<Seq<char>>, roots: Seq<Seq<char>>) -> Seq<Seq<char>>
    decreases roots.len(),
{
    if roots.len() == 0 {
        Seq::empty()
    } else {
        kinds.map_values(|k: Seq<char>| rule_query(k, roots[0])) + rule_queries_spec(
            kinds,
            roots.skip(1),
        )
    }
}

/// Builds one query per (rule kind, target root) pair, roots outermost.
pub fn build_rule_queries(allowed_rule_kinds: &Vec<String>, target_roots: &Vec<String>) -> (r: Vec<
    String,
>)
    ensures
        r.deep_view() == rule_queries_spec(
            allowed_rule_kinds.deep_view(),
            target_roots.deep_view(),
        ),
{
    let ghost kv = allowed_rule_kinds.deep_view();
    let ghost rv = target_roots.deep_view();
    let mut out: Vec<String> = Vec::new();
    let rn = target_roots.len();
    let mut i: usize = 0;
    proof {
        assert(rv.skip(0) =~= rv);
        assert(out.deep_view() + rule_queries_spec(kv, rv.skip(0)) =~= rule_queries_spec(kv, rv));
    }
    while i < rn
        invariant
            0 <= i <= rn,
            rn == target_roots@.len(),
            allowed_rule_kinds.deep_view() == kv,
            target_roots.deep_view() == rv,
            out.deep_view() + rule_queries_spec(kv, rv.skip(i as int)) == rule_queries_spec(
                kv,
                rv,
            ),
        decreases rn - i,
    {
        proof {
            assert(rv.skip(i as int)[0] == rv[i as int]);
            assert(rv.skip(i as int).skip(1) =~= rv.skip(i + 1));
        }
        let ghost root = rv[i as int];
        let ghost mapped = kv.map_values(|k: Seq<char>| rule_query(k, root));
        let kn = allowed_rule_kinds.len();
        let mut j: usize = 0;
        let ghost base = out.deep_view();
        proof {
            assert(out.deep_view() =~= base + mapped.take(0));
        }
        while j < kn
            invariant
                0 <= j <= kn,
                kn == allowed_rule_kinds@.len(),
                allowed_rule_kinds.deep_view() == kv,
                target_roots.deep_view() == rv,
                i < rn,
                rn == target_roots@.len(),
                root == rv[i as int],
                mapped == kv.map_values(|k: Seq<char>| rule_query(k, root)),
                out.deep_view() == base + mapped.take(j as int),
            decreases kn - j,
        {
            let mut q = String::from_str("kind(");
            q.append(allowed_rule_kinds[j].as_str());
            q.append(", ");
            q.append(target_roots[i].as_str());
            q.append(")");
            let ghost prev = out.deep_view();
            out.push(q);
            proof {
                reveal_strlit("kind(");
                reveal_strlit(", ");
                reveal_strlit(")");
                assert(kv[j as int] == allowed_rule_kinds@[j as int]@);
                assert(out.deep_view() =~= prev.push(mapped[j as int]));
                assert(mapped.take(j + 1) =~= mapped.take(j as int).push(mapped[j as int]));
            }
            j = j + 1;
        }
        proof {
            assert(mapped.take(kn as int) =~= mapped);
        }
        i = i + 1;
    }
    proof {
        assert(rv.skip(rn as int) =~= Seq::<Seq<char>>::empty());
        assert(out.deep_view() =~= out.deep_view() + rule_queries_spec(kv, rv.skip(rn as int)));
    }
    out
}

/// The queries grouped into batches of at most `batch_size`, each batch
/// joined with ` union ` for one builder invocation.
pub open spec fn union_batches_spec(queries: Seq<Seq<char>>, batch_size: int) -> Seq<Seq<char>>
    decreases queries.len(),
{
    if queries.len() == 0 || batch_size <= 0 {
        Seq::empty()
    } else if queries.len() <= batch_size {
        seq![join_spec(queries, " union "@)]
    } else {
        seq![join_spec(queries.take(batch_size), " union "@)] + union_batches_spec(
            queries.skip(batch_size),
            batch_size,
        )
    }
}

/// Splits the queries into bounded batches joined with ` union `, so each
/// builder invocation stays under the argument-length limit.
pub fn union_batches(queries: &Vec<String>, batch_size: usize) -> (r: Vec<String>)
    requires
        batch_size > 0,
    ensures
        r.deep_view() == union_batches_spec(queries.deep_view(), batch_size as int),
{
    let ghost qv = queries.deep_view();
    let mut out: Vec<String> = Vec::new();
    let n = queries.len();
    let mut i: usize = 0;
    proof {
        assert(qv.skip(0) =~= qv);
        assert(out.deep_view() + union_batches_spec(qv.skip(0), batch_size as int)
            =~= union_batches_spec(qv, batch_size as int));
    }
    while i < n
        invariant
            0 <= i <= n,
            n == queries@.len(),
            queries.deep_view() == qv,
            batch_size > 0,
            out.deep_view() + union_batches_spec(qv.skip(i as int), batch_size as int)
                == union_batches_spec(qv, batch_size as int),
        decreases n - i,
    {
        let upto = if n - i < batch_size {
            n
        } else {
            i + batch_size
        };
        let mut chunk: Vec<String> = Vec::new();
        let mut j: usize = i;
        proof {
            assert(chunk.deep_view() =~= qv.subrange(i as int, i as int));
        }
        while j < upto
            invariant
                i <= j <= upto <= n,
                n == queries@.len(),
                queries.deep_view() == qv,
                chunk.deep_view() == qv.subrange(i as int, j as int),
            decreases upto - j,
        {
            let ghost prev = chunk.deep_view();
            chunk.push(queries[j].clone());
            proof {
                assert(chunk.deep_view() =~= prev.push(qv[j as int]));
                assert(qv.subrange(i as int, j + 1) =~= qv.subrange(i as int, j as int).push(
                    qv[j as int],
                ));
            }
            j = j + 1;
        }
        let sep: &str = " union ";
        let joined = join_with(&chunk, sep);
        let ghost prev = out.deep_view();
        out.push(joined);
        proof {
            let rest = qv.skip(i as int);
            if n - i <= batch_size {
                assert(upto == n);
                assert(qv.subrange(i as int, n as int) =~= rest);
                assert(union_batches_spec(rest, batch_size as int) == seq![
                    join_spec(rest, " union "@),
                ]);
                assert(out.deep_view() =~= prev + seq![join_spec(rest, " union "@)]);
                assert(rest.skip(rest.len() as int) =~= Seq::<Seq<char>>::empty());
                assert(qv.skip(n as int) =~= Seq::<Seq<char>>::empty());
                assert(out.deep_view() + union_batches_spec(
                    qv.skip(n as int),
                    batch_size as int,
                ) =~= union_batches_spec(qv, batch_size as int));
            } else {
                assert(upto == i + batch_size);
                assert(qv.subrange(i as int, upto as int) =~= rest.take(batch_size as int));
                assert(union_batches_spec(rest, batch_size as int) == seq![
                    join_spec(rest.take(batch_size as int), " union "@),
                ] + union_batches_spec(rest.skip(batch_size as int), batch_size as int));
                assert(rest.skip(batch_size as int) =~= qv.skip(upto as int));
                assert(out.deep_view() =~= prev.push(join_spec(
                    rest.take(batch_size as int),
                    " union "@,
                )));
                assert(out.deep_view() + union_batches_spec(
                    qv.skip(upto as int),
                    batch_size as int,
                ) =~= union_batches_spec(qv, batch_size as int));
            }
        }
        i = upto;
    }
    proof {
        assert(qv.skip(n as int) =~= Seq::<Seq<char>>::empty());
        assert(out.deep_view() =~= out.deep_view() + union_batches_spec(
            qv.skip(n as int),
            batch_size as int,
        ));
    }
    out
}

pub open spec fn is_space_char(c: char) -> bool {
    c == ' ' || c == '\t' || c == '\r' || c == '\n'
}

/// The whitespace-separated tokens of `s` from index `i` on.
pub open spec fn tokens_from(s: Seq<char>, i: int) -> Seq<Seq<char>>
    decreases s.len() - i + 1,
    via tokens_from_decreases
{
    if i < 0 || i >= s.len() {
        Seq::empty()
    } else if is_space_char(s[i]) {
        tokens_from(s, i + 1)
    } else {
        let e = nonspace_to(s, i);
        seq![s.subrange(i, e)] + tokens_from(s, e)
    }
}

/// End of the non-whitespace run starting at `i`.
pub open spec fn nonspace_to(s: Seq<char>, i: int) -> int
    decreases s.len() - i + 1,
{
    if i < 0 || i >= s.len() {
        s.len() as int
    } else if !is_space_char(s[i]) {
        nonspace_to(s, i + 1)
    } else {
        i
    }
}

proof fn lemma_nonspace_to(s: Seq<char>, i: int)
    requires
        0 <= i <= s.len(),
    ensures
        i <= nonspace_to(s, i) <= s.len(),
        nonspace_to(s, i) < s.len() ==> is_space_char(s[nonspace_to(s, i)]),
        forall|j: int| i <= j < nonspace_to(s, i) ==> !is_space_char(s[j]),
    decreases s.len() - i + 1,
{
    if i < s.len() && !is_space_char(s[i]) {
        lemma_nonspace_to(s, i + 1);
    }
}

#[via_fn]
proof fn tokens_from_decreases(s: Seq<char>, i: int) {
    if 0 <= i < s.len() && !is_space_char(s[i]) {
        lemma_nonspace_to(s, i);
        assert(nonspace_to(s, i) > i);
    }
}

fn space_char(c: char) -> (r: bool)
    ensures
        r == is_space_char(c),
{
    c == ' ' || c == '\t' || c == '\r' || c == '\n'
}

/// Splits a line into its whitespace-separated tokens.
pub fn split_whitespace_tokens(s: &str) -> (r: Vec<String>)
    ensures
        r.deep_view() == tokens_from(s@, 0),
{
    let slen = s.unicode_len();
    let mut out: Vec<String> = Vec::new();
    let mut i: usize = 0;
    proof {
        assert(out.deep_view() + tokens_from(s@, 0) =~= tokens_from(s@, 0));
    }
    while i < slen
        invariant
            0 <= i <= slen,
            slen == s@.len(),
            out.deep_view() + tokens_from(s@, i as int) == tokens_from(s@, 0),
        decreases slen - i,
    {
        if space_char(s.get_char(i)) {
            proof {
                assert(tokens_from(s@, i as int) == tokens_from(s@, i + 1));
            }
            i = i + 1;
        } else {
            proof {
                lemma_nonspace_to(s@, i as int);
            }
            let mut e: usize = i;
            while e < slen && !space_char(s.get_char(e))
                invariant
                    i <= e <= slen,
                    slen == s@.len(),
                    forall|j: int| i <= j < e ==> !is_space_char(s@[j]),
                decreases slen - e,
            {
                e = e + 1;
            }
            proof {
                lemma_nonspace_to(s@, i as int);
                let w = nonspace_to(s@, i as int);
                if w < e {
                    assert(is_space_char(s@[w]));
                } else if w > e {
                    assert(e < s@.len());
                    assert(!is_space_char(s@[e as int]));
                }
                assert(w == e);
            }
            let tok = String::from_str(s.substring_char(i, e));
            let ghost prev = out.deep_view();
            out.push(tok);
            proof {
                assert(out.deep_view() =~= prev.push(s@.subrange(i as int, e as int)));
                assert(tokens_from(s@, i as int) == seq![s@.subrange(i as int, e as int)]
                    + tokens_from(s@, e as int));
                assert(out.deep_view() + tokens_from(s@, e as int) =~= prev + tokens_from(
                    s@,
                    i as int,
                ));
            }
            i = e;
        }
    }
    proof {
        assert(tokens_from(s@, slen as int) =~= Seq::<Seq<char>>::empty());
        assert(out.deep_view() =~= out.deep_view() + tokens_from(s@, slen as int));
    }
    out
}

/// The `(kind, label)` of one `label_kind` query-output line, which holds
/// exactly three whitespace-separated fields: kind, attribute, label.
pub open spec fn label_kind_spec(line: Seq<char>) -> Option<(Seq<char>, Seq<char>)> {
    let toks = tokens_from(line, 0);
    if toks.len() == 3 {
        Some((toks[0], toks[2]))
    } else {
        None
    }
}

pub fn parse_label_kind_line(line: &str) -> (r: Option<(String, String)>)
    ensures
        r.deep_view() == label_kind_spec(line@),
{
    let toks = split_whitespace_tokens(line);
    if toks.len() == 3 {
        proof {
            assert(toks.deep_view()[0] == toks@[0]@);
            assert(toks.deep_view()[2] == toks@[2]@);
        }
        Some((toks[0].clone(), toks[2].clone()))
    } else {
        None
    }
}

/// The dotted class name of one archive entry: the `.class` suffix
/// dropped, separators turned into dots, and one trailing dot trimmed;
/// nothing for entries that are not class files.
pub open spec fn dotted(s: Seq<char>) -> Seq<char> {
    s.map_values(
        |c: char|
            if c == '/' || c == '$' {
                '.'
            } else {
                c
            },
    )
}

pub open spec fn class_name_spec(name: Seq<char>) -> Option<Seq<char>> {
    if name.len() >= 6 && name.subrange(name.len() - 6, name.len() as int) == ".class"@ {
        let base = dotted(name.take(name.len() - 6));
        if base.len() > 0 && base.last() == '.' {
            Some(base.drop_last())
        } else {
            Some(base)
        }
    } else {
        None
    }
}

pub fn class_name_from_entry(name: &str) -> (r: Option<String>)
    ensures
        r.deep_view() == class_name_spec(name@),
{
    proof {
        reveal_strlit(".class");
    }
    let nlen = name.unicode_len();
    if nlen < 6 {
        return None;
    }
    let tail = name.substring_char(nlen - 6, nlen);
    proof {
        assert(tail@ =~= name@.subrange(name@.len() - 6, name@.len() as int));
    }
    if !crate::text::str_eq(tail, ".class") {
        return None;
    }
    let stem_len = nlen - 6;
    let ghost stem = name@.take(name@.len() - 6);
    let mut base = String::new();
    let mut i: usize = 0;
    let dot: &str = ".";
    proof {
        reveal_strlit(".");
        assert(base@ =~= dotted(stem).take(0));
    }
    while i < stem_len
        invariant
            0 <= i <= stem_len,
            stem_len == stem.len(),
            stem_len + 6 == name@.len(),
            stem == name@.take(name@.len() - 6),
            dot@ == seq!['.'],
            base@ == dotted(stem).take(i as int),
        decreases stem_len - i,
    {
        let c = name.get_char(i);
        proof {
            assert(stem[i as int] == name@[i as int]);
            assert(dotted(stem)[i as int] == if stem[i as int] == '/' || stem[i as int] == '$' {
                '.'
            } else {
                stem[i as int]
            });
        }
        if c == '/' || c == '$' {
            base.append(dot);
        } else {
            let piece = name.substring_char(i, i + 1);
            proof {
                assert(piece@ =~= seq![name@[i as int]]);
            }
            base.append(piece);
        }
        proof {
            assert(base@ =~= dotted(stem).take(i + 1));
        }
        i = i + 1;
    }
    proof {
        assert(dotted(stem).take(stem_len as int) =~= dotted(stem));
    }
    let blen = base.as_str().unicode_len();
    if blen > 0 && base.as_str().get_char(blen - 1) == '.' {
        let trimmed = String::from_str(base.as_str().substring_char(0, blen - 1));
        proof {
            assert(trimmed@ =~= dotted(stem).drop_last());
        }
        Some(trimmed)
    } else {
        Some(base)
    }
}

/// The class names of all `.class` entries of an archive listing.
pub open spec fn class_names_spec(entries: Seq<Seq<char>>) -> Seq<Seq<char>>
    decreases entries.len(),
{
    if entries.len() == 0 {
        Seq::empty()
    } else {
        let rest = class_names_spec(entries.skip(1));
        match class_name_spec(entries[0]) {
            Some(c) => seq![c] + rest,
            None => rest,
        }
    }
}

pub fn extract_class_names(entries: &Vec<String>) -> (r: Vec<String>)
    ensures
        r.deep_view() == class_names_spec(entries.deep_view()),
{
    let ghost ev = entries.deep_view();
    let mut out: Vec<String> = Vec::new();
    let n = entries.len();
    let mut i: usize = 0;
    proof {
        assert(ev.skip(0) =~= ev);
        assert(out.deep_view() + class_names_spec(ev.skip(0)) =~= class_names_spec(ev));
    }
    while i < n
        invariant
            0 <= i <= n,
            n == entries@.len(),
            entries.deep_view() == ev,
            out.deep_view() + class_names_spec(ev.skip(i as int)) == class_names_spec(ev),
        decreases n - i,
    {
        proof {
            assert(ev.skip(i as int)[0] == ev[i as int]);
            assert(ev.skip(i as int).skip(1) =~= ev.skip(i + 1));
            assert(entries@[i as int]@ == ev[i as int]);
        }
        match class_name_from_entry(entries[i].as_str()) {
            Some(c) => {
                let ghost prev = out.deep_view();
                let ghost cv = c@;
                out.push(c);
                proof {
                    assert(out.deep_view() =~= prev.push(cv));
                    assert(out.deep_view() + class_names_spec(ev.skip(i + 1)) =~= prev
                        + class_names_spec(ev.skip(i as int)));
                }
            },
            None => {},
        }
        i = i + 1;
    }
    proof {
        assert(ev.skip(n as int) =~= Seq::<Seq<char>>::empty());
        assert(out.deep_view() =~= out.deep_view() + class_names_spec(ev.skip(n as int)));
    }
    out
}

/// The repository name declared by a `workspace(name = "...")` line.
pub open spec fn workspace_name_pattern() -> Seq<char> {
    "^\\s*workspace\\(\\s*name\\s*=\\s*(\"|')\\s*([A-Za-z0-9_-]*)(\"|').*$"@
}

/// The name on the first line opening with `workspace(`, when the
/// declaration parses.
pub open spec fn repo_name_spec(lines: Seq<Seq<char>>, i: int) -> Option<Seq<char>>
    decreases lines.len() - i + 1,
{
    if i < 0 || i >= lines.len() {
        None
    } else if is_prefix(lines[i], "workspace("@) {
        line_group(workspace_name_pattern(), lines[i], 2)
    } else {
        repo_name_spec(lines, i + 1)
    }
}

/// Reads the current repository's name out of its workspace file's text.
pub fn parse_current_repo_name(workspace_content: &str) -> (r: Option<String>)
    ensures
        r.deep_view() == repo_name_spec(crate::text::lines_spec(workspace_content@), 0),
{
    proof {
        reveal_strlit("workspace(");
    }
    let pattern: &str = "^\\s*workspace\\(\\s*name\\s*=\\s*(\"|')\\s*([A-Za-z0-9_-]*)(\"|').*$";
    let opener: &str = "workspace(";
    let ls = crate::text::lines_of(workspace_content);
    let ghost lv = ls.deep_view();
    let n = ls.len();
    let mut i: usize = 0;
    while i < n
        invariant
            0 <= i <= n,
            n == lv.len(),
            ls.deep_view() == lv,
            n == ls@.len(),
            lv == crate::text::lines_spec(workspace_content@),
            pattern@ == workspace_name_pattern(),
            opener@ == "workspace("@,
            repo_name_spec(lv, 0) == repo_name_spec(lv, i as int),
        decreases n - i,
    {
        proof {
            assert(ls@[i as int]@ == lv[i as int]);
        }
        if crate::text::starts_with_str(ls[i].as_str(), opener) {
            match regex_line_captures(pattern, ls[i].as_str()) {
                Some(groups) => {
                    if 2 < groups.len() {
                        proof {
                            assert(groups.deep_view().len() == groups@.len());
                            assert(groups.deep_view()[2] == groups@[2]@);
                            assert(line_group(workspace_name_pattern(), lv[i as int], 2) == Some(
                                groups@[2]@,
                            ));
                        }
                        return Some(groups[2].clone());
                    } else {
                        proof {
                            assert(groups.deep_view().len() == groups@.len());
                            assert(line_group(workspace_name_pattern(), lv[i as int], 2) is None);
                        }
                        return None;
                    }
                },
                None => {
                    proof {
                        assert(line_group(workspace_name_pattern(), lv[i as int], 2) is None);
                    }
                    return None;
                },
            }
        }
        i = i + 1;
    }
    None
}


/// The popularity recorded for a target, zero when the map has none.
pub open spec fn pop_of(pop: Seq<(Seq<char>, u16)>, target: Seq<char>) -> u16
    decreases pop.len(),
{
    if pop.len() == 0 {
        0u16
    } else if pop[0].0 == target {
        pop[0].1
    } else {
        pop_of(pop.skip(1), target)
    }
}

fn popularity_of(pop: &Vec<(String, u16)>, target: &str) -> (r: u16)
    ensures
        r == pop_of(pop.deep_view(), target@),
{
    let ghost pv = pop.deep_view();
    let n = pop.len();
    let mut i: usize = 0;
    proof {
        assert(pv.skip(0) =~= pv);
    }
    while i < n
        invariant
            0 <= i <= n,
            n == pop@.len(),
            pop.deep_view() == pv,
            pop_of(pv, target@) == pop_of(pv.skip(i as int), target@),
        decreases n - i,
    {
        proof {
            assert(pv.skip(i as int)[0] == pv[i as int]);
            assert(pv[i as int] == (pop@[i as int].0@, pop@[i as int].1));
            assert(pv.skip(i as int).skip(1) =~= pv.skip(i + 1));
        }
        if crate::text::str_eq(pop[i].0.as_str(), target) {
            return pop[i].1;
        }
        i = i + 1;
    }
    proof {
        assert(pv.skip(n as int) =~= Seq::<(Seq<char>, u16)>::empty());
    }
    0
}

/// Index of the record holding `class`, or the record count.
pub open spec fn record_idx(acc: Seq<IndexRecord>, class: Seq<char>, i: int) -> int
    decreases acc.len() - i + 1,
{
    if i < 0 || i >= acc.len() {
        acc.len() as int
    } else if acc[i].0 == class {
        i
    } else {
        record_idx(acc, class, i + 1)
    }
}

proof fn lemma_record_idx(acc: Seq<IndexRecord>, class: Seq<char>, i: int)
    requires
        0 <= i <= acc.len(),
    ensures
        i <= record_idx(acc, class, i) <= acc.len(),
        record_idx(acc, class, i) < acc.len() ==> acc[record_idx(acc, class, i)].0 == class,
        forall|j: int| i <= j < record_idx(acc, class, i) ==> acc[j].0 != class,
    decreases acc.len() - i + 1,
{
    if i < acc.len() && acc[i].0 != class {
        lemma_record_idx(acc, class, i + 1);
    }
}

/// One class observation folded into the accumulated records: appended to
/// the class's entry list, or opening a new record at the end.
pub open spec fn reverse_add(
    acc: Seq<IndexRecord>,
    class: Seq<char>,
    entry: (u16, Seq<char>),
) -> Seq<IndexRecord> {
    let i = record_idx(acc, class, 0);
    if i < acc.len() {
        acc.update(i, (class, acc[i].1.push(entry)))
    } else {
        acc.push((class, seq![entry]))
    }
}

/// All of one target's classes folded in.
pub open spec fn reverse_add_classes(
    acc: Seq<IndexRecord>,
    classes: Seq<Seq<char>>,
    entry: (u16, Seq<char>),
) -> Seq<IndexRecord>
    decreases classes.len(),
{
    if classes.len() == 0 {
        acc
    } else {
        reverse_add_classes(reverse_add(acc, classes[0], entry), classes.skip(1), entry)
    }
}

/// The whole inversion: every target's classes folded in target order,
/// each with the target's popularity.
pub open spec fn reverse_index_spec(
    results: Seq<(Seq<char>, Seq<Seq<char>>)>,
    pop: Seq<(Seq<char>, u16)>,
) -> Seq<IndexRecord>
    decreases results.len(),
{
    if results.len() == 0 {
        Seq::empty()
    } else {
        reverse_add_classes(
            reverse_index_spec(results.drop_last(), pop),
            results.last().1,
            (pop_of(pop, results.last().0), results.last().0),
        )
    }
}

/// Each record's entries ranked by descending frequency.
pub open spec fn ranked_records(rs: Seq<IndexRecord>) -> Seq<IndexRecord> {
    rs.map_values(|r: IndexRecord| (r.0, crate::resolver::sort_freq_desc(r.1)))
}

/// Inverts per-target class lists into the class-to-targets table: each
/// class maps to the targets providing it, ranked by popularity with ties
/// in insertion order, and records ordered by ascending class name.
pub fn build_reverse_index(
    results: &Vec<(String, Vec<String>)>,
    popularity: &Vec<(String, u16)>,
) -> (r: IndexTable)
    ensures
        r@ == sort_lex(
            ranked_records(reverse_index_spec(results.deep_view(), popularity.deep_view())),
        ),
{
    let ghost rv = results.deep_view();
    let ghost pv = popularity.deep_view();
    let mut acc: Vec<(String, Vec<(u16, String)>)> = Vec::new();
    let n = results.len();
    let mut i: usize = 0;
    proof {
        assert(rv.take(0) =~= Seq::<(Seq<char>, Seq<Seq<char>>)>::empty());
        assert(acc.deep_view() =~= reverse_index_spec(rv.take(0), pv));
    }
    while i < n
        invariant
            0 <= i <= n,
            n == results@.len(),
            results.deep_view() == rv,
            popularity.deep_view() == pv,
            acc.deep_view() == reverse_index_spec(rv.take(i as int), pv),
        decreases n - i,
    {
        let target = &results[i].0;
        let freq = popularity_of(popularity, target.as_str());
        let ghost entry = (freq, target@);
        proof {
            assert(rv[i as int] == (results@[i as int].0@, results@[i as int].1.deep_view()));
            assert(rv.take(i + 1).drop_last() =~= rv.take(i as int));
            assert(rv.take(i + 1).last() == rv[i as int]);
        }
        let classes = &results[i].1;
        let ghost cv = results@[i as int].1.deep_view();
        let m = classes.len();
        let mut j: usize = 0;
        while j < m
            invariant
                0 <= j <= m,
                m == classes@.len(),
                i < n,
                n == results@.len(),
                results.deep_view() == rv,
                popularity.deep_view() == pv,
                cv == results@[i as int].1.deep_view(),
                classes@ == results@[i as int].1@,
                entry == (freq, results@[i as int].0@),
                forall|q: int| 0 <= q < m ==> #[trigger] cv[q] == classes@[q]@,
                acc.deep_view() == reverse_add_classes(
                    reverse_index_spec(rv.take(i as int), pv),
                    cv.take(j as int),
                    entry,
                ),
            decreases m - j,
        {
            proof {
                assert(cv[j as int] == classes@[j as int]@);
                assert(cv.take(j + 1).drop_last() =~= cv.take(j as int));
                assert(cv.take(j + 1).last() == cv[j as int]);
                lemma_reverse_add_classes_snoc(
                    reverse_index_spec(rv.take(i as int), pv),
                    cv.take(j + 1),
                    entry,
                );
            }
            let ghost pre = acc.deep_view();
            proof {
                lemma_record_idx(pre, cv[j as int], 0);
            }
            let an = acc.len();
            let mut k: usize = 0;
            let mut found = false;
            while k < an && !found
                invariant
                    0 <= k <= an,
                    an == acc@.len(),
                    acc.deep_view() == pre,
                    i < n,
                    n == results@.len(),
                    j < m,
                    m == classes@.len(),
                    classes@ == results@[i as int].1@,
                    cv == results@[i as int].1.deep_view(),
                    cv[j as int] == classes@[j as int]@,
                    found ==> k < an && pre[k as int].0 == cv[j as int],
                    forall|q: int| 0 <= q < k ==> (#[trigger] pre[q]).0 != cv[j as int],
                decreases an - k + (if found {
                    0int
                } else {
                    1int
                }),
            {
                proof {
                    assert(pre[k as int].0 == acc@[k as int].0@);
                }
                if crate::text::str_eq(acc[k].0.as_str(), classes[j].as_str()) {
                    found = true;
                } else {
                    k = k + 1;
                }
            }
            if found {
                proof {
                    lemma_record_idx(pre, cv[j as int], 0);
                    assert(record_idx(pre, cv[j as int], 0) == k);
                }
                let mut rec = acc.remove(k);
                rec.1.push((freq, results[i].0.clone()));
                let ghost recv = (rec.0@, rec.1.deep_view());
                proof {
                    assert(recv == (pre[k as int].0, pre[k as int].1.push(entry)));
                }
                acc.insert(k, rec);
                proof {
                    assert(acc.deep_view() =~= pre.update(
                        k as int,
                        (cv[j as int], pre[k as int].1.push(entry)),
                    ));
                    assert(acc.deep_view() =~= reverse_add(pre, cv[j as int], entry));
                }
            } else {
                proof {
                    lemma_record_idx(pre, cv[j as int], 0);
                    assert(record_idx(pre, cv[j as int], 0) == an);
                }
                let mut es: Vec<(u16, String)> = Vec::new();
                es.push((freq, results[i].0.clone()));
                proof {
                    assert(es.deep_view() =~= seq![entry]);
                }
                acc.push((classes[j].clone(), es));
                proof {
                    assert(acc.deep_view() =~= pre.push((cv[j as int], seq![entry])));
                    assert(acc.deep_view() =~= reverse_add(pre, cv[j as int], entry));
                }
            }
            j = j + 1;
        }
        proof {
            assert(cv.take(m as int) =~= cv);
            assert(acc.deep_view() == reverse_add_classes(
                reverse_index_spec(rv.take(i as int), pv),
                cv,
                entry,
            ));
            assert(reverse_index_spec(rv.take(i + 1), pv) == reverse_add_classes(
                reverse_index_spec(rv.take(i as int), pv),
                rv[i as int].1,
                (pop_of(pv, rv[i as int].0), rv[i as int].0),
            ));
        }
        i = i + 1;
    }
    proof {
        assert(rv.take(n as int) =~= rv);
    }
    // Rank each class's targets by popularity, ties in insertion order.
    let ghost folded = reverse_index_spec(rv, pv);
    let mut out: Vec<(String, Vec<(u16, String)>)> = Vec::new();
    let an = acc.len();
    let mut k: usize = 0;
    while k < an
        invariant
            0 <= k <= an,
            an == acc@.len(),
            acc.deep_view() == folded,
            out@.len() == k,
            forall|q: int|
                0 <= q < k ==> (#[trigger] out.deep_view()[q]).0 == folded[q].0
                    && out.deep_view()[q].1 == crate::resolver::sort_freq_desc(folded[q].1),
        decreases an - k,
    {
        let mut es: Vec<(u16, String)> = Vec::new();
        let rn = acc[k].1.len();
        let mut q: usize = 0;
        proof {
            assert(acc.deep_view()[k as int].1 == acc@[k as int].1.deep_view());
            assert(es.deep_view() =~= folded[k as int].1.take(0));
        }
        while q < rn
            invariant
                0 <= q <= rn,
                k < an,
                an == acc@.len(),
                rn == acc@[k as int].1@.len(),
                acc.deep_view() == folded,
                es.deep_view() == folded[k as int].1.take(q as int),
            decreases rn - q,
        {
            let ghost prev = es.deep_view();
            es.push((acc[k].1[q].0, acc[k].1[q].1.clone()));
            proof {
                assert(acc.deep_view()[k as int].1 == acc@[k as int].1.deep_view());
                assert(folded[k as int].1[q as int] == (
                    acc@[k as int].1@[q as int].0,
                    acc@[k as int].1@[q as int].1@,
                ));
                assert(es.deep_view() =~= prev.push(folded[k as int].1[q as int]));
                assert(folded[k as int].1.take(q + 1) =~= folded[k as int].1.take(q as int).push(
                    folded[k as int].1[q as int],
                ));
            }
            q = q + 1;
        }
        proof {
            assert(folded[k as int].1.take(rn as int) =~= folded[k as int].1);
        }
        let sorted = crate::resolver::sort_candidates(es);
        let ghost prevout = out.deep_view();
        out.push((acc[k].0.clone(), sorted));
        proof {
            assert(acc.deep_view()[k as int].0 == acc@[k as int].0@);
            assert(out.deep_view() =~= prevout.push(
                (folded[k as int].0, crate::resolver::sort_freq_desc(folded[k as int].1)),
            ));
        }
        k = k + 1;
    }
    proof {
        assert(out.deep_view() =~= ranked_records(folded));
    }
    let sorted = sort_records_by_name(out);
    IndexTable::from_entries(sorted)
}

proof fn lemma_reverse_add_classes_snoc(
    acc: Seq<IndexRecord>,
    classes: Seq<Seq<char>>,
    entry: (u16, Seq<char>),
)
    requires
        classes.len() > 0,
    ensures
        reverse_add_classes(acc, classes, entry) == reverse_add(
            reverse_add_classes(acc, classes.drop_last(), entry),
            classes.last(),
            entry,
        ),
    decreases classes.len(),
{
    if classes.len() == 1 {
        assert(classes.drop_last().len() == 0);
        assert(reverse_add_classes(acc, classes, entry) == reverse_add_classes(
            reverse_add(acc, classes[0], entry),
            classes.skip(1),
            entry,
        ));
        assert(classes.skip(1).len() == 0);
    } else {
        lemma_reverse_add_classes_snoc(reverse_add(acc, classes[0], entry), classes.skip(1), entry);
        assert(classes.skip(1).drop_last() =~= classes.drop_last().skip(1));
        assert(classes.skip(1).last() == classes.last());
        assert(classes.drop_last()[0] == classes[0]);
        assert(reverse_add_classes(acc, classes.drop_last(), entry) == reverse_add_classes(
            reverse_add(acc, classes[0], entry),
            classes.drop_last().skip(1),
            entry,
        ));
    }
}


/// Lexicographic order on class names, by character code.
pub open spec fn lex_le(a: Seq<char>, b: Seq<char>) -> bool
    decreases a.len(),
{
    if a.len() == 0 {
        true
    } else if b.len() == 0 {
        false
    } else if a[0] != b[0] {
        a[0] < b[0]
    } else {
        lex_le(a.skip(1), b.skip(1))
    }
}

proof fn lemma_lex_le_common_prefix(a: Seq<char>, b: Seq<char>, i: int)
    requires
        0 <= i <= a.len(),
        i <= b.len(),
        forall|j: int| 0 <= j < i ==> a[j] == b[j],
    ensures
        lex_le(a, b) == lex_le(a.skip(i), b.skip(i)),
    decreases i,
{
    if i > 0 {
        assert(a.len() > 0 && b.len() > 0);
        assert(a[0] == b[0]);
        assert(a.skip(1).skip(i - 1) =~= a.skip(i));
        assert(b.skip(1).skip(i - 1) =~= b.skip(i));
        assert(forall|j: int| 0 <= j < i - 1 ==> #[trigger] a.skip(1)[j] == b.skip(1)[j]);
        lemma_lex_le_common_prefix(a.skip(1), b.skip(1), i - 1);
    } else {
        assert(a.skip(0) =~= a);
        assert(b.skip(0) =~= b);
    }
}

fn str_lex_le(a: &str, b: &str) -> (r: bool)
    ensures
        r == lex_le(a@, b@),
{
    let alen = a.unicode_len();
    let blen = b.unicode_len();
    let mut i: usize = 0;
    while i < alen && i < blen
        invariant
            0 <= i <= alen,
            i <= blen,
            alen == a@.len(),
            blen == b@.len(),
            forall|j: int| 0 <= j < i ==> a@[j] == b@[j],
        decreases alen - i,
    {
        let ca = a.get_char(i);
        let cb = b.get_char(i);
        if ca != cb {
            proof {
                lemma_lex_le_common_prefix(a@, b@, i as int);
                assert(a@.skip(i as int)[0] == ca);
                assert(b@.skip(i as int)[0] == cb);
            }
            return ca < cb;
        }
        i = i + 1;
    }
    proof {
        lemma_lex_le_common_prefix(a@, b@, i as int);
    }
    if i == alen {
        proof {
            assert(a@.skip(i as int).len() == 0);
        }
        true
    } else {
        proof {
            assert(a@.skip(i as int).len() > 0);
            assert(b@.skip(i as int).len() == 0);
        }
        false
    }
}

/// Stable insertion of a record into a name-ascending list.
pub open spec fn insert_lex(s: Seq<IndexRecord>, x: IndexRecord) -> Seq<IndexRecord>
    decreases s.len(),
{
    if s.len() == 0 {
        seq![x]
    } else if lex_le(s.last().0, x.0) {
        s.push(x)
    } else {
        insert_lex(s.drop_last(), x).push(s.last())
    }
}

/// Stable sort of records by ascending class name.
pub open spec fn sort_lex(s: Seq<IndexRecord>) -> Seq<IndexRecord>
    decreases s.len(),
{
    if s.len() == 0 {
        Seq::empty()
    } else {
        insert_lex(sort_lex(s.drop_last()), s.last())
    }
}

proof fn lemma_insert_lex_at(s: Seq<IndexRecord>, x: IndexRecord, k: int)
    requires
        0 <= k <= s.len(),
        forall|j: int| k <= j < s.len() ==> !lex_le((#[trigger] s[j]).0, x.0),
        k > 0 ==> lex_le(s[k - 1].0, x.0),
    ensures
        insert_lex(s, x) == s.take(k) + seq![x] + s.skip(k),
    decreases s.len(),
{
    if s.len() == 0 {
        assert(s.take(0) + seq![x] + s.skip(0) =~= seq![x]);
    } else if lex_le(s.last().0, x.0) {
        assert(k == s.len());
        assert(s.take(k) + seq![x] + s.skip(k) =~= s.push(x));
    } else {
        assert(k < s.len());
        let dl = s.drop_last();
        assert(forall|j: int| k <= j < dl.len() ==> !lex_le((#[trigger] dl[j]).0, x.0));
        if k > 0 {
            assert(dl[k - 1] == s[k - 1]);
        }
        lemma_insert_lex_at(dl, x, k);
        assert((dl.take(k) + seq![x] + dl.skip(k)).push(s.last()) =~= s.take(k) + seq![x] + s.skip(
            k,
        ));
    }
}

/// Sorts table records by ascending class name, keeping ties in their
/// existing order.
pub fn sort_records_by_name(recs: Vec<(String, Vec<(u16, String)>)>) -> (r: Vec<
    (String, Vec<(u16, String)>),
>)
    ensures
        r.deep_view() == sort_lex(recs.deep_view()),
{
    let mut out: Vec<(String, Vec<(u16, String)>)> = Vec::new();
    let n = recs.len();
    let ghost rv = recs.deep_view();
    proof {
        assert(rv.take(0) =~= Seq::<IndexRecord>::empty());
        assert(out.deep_view() =~= sort_lex(rv.take(0)));
    }
    let mut i: usize = 0;
    while i < n
        invariant
            0 <= i <= n,
            n == recs@.len(),
            recs.deep_view() == rv,
            out.deep_view() == sort_lex(rv.take(i as int)),
        decreases n - i,
    {
        let mut es: Vec<(u16, String)> = Vec::new();
        let m = recs[i].1.len();
        let mut j: usize = 0;
        proof {
            assert(recs.deep_view()[i as int].1 == recs@[i as int].1.deep_view());
            assert(es.deep_view() =~= rv[i as int].1.take(0));
        }
        while j < m
            invariant
                0 <= j <= m,
                i < n,
                n == recs@.len(),
                m == recs@[i as int].1@.len(),
                recs.deep_view() == rv,
                es.deep_view() == rv[i as int].1.take(j as int),
            decreases m - j,
        {
            let ghost prev = es.deep_view();
            es.push((recs[i].1[j].0, recs[i].1[j].1.clone()));
            proof {
                assert(recs.deep_view()[i as int].1 == recs@[i as int].1.deep_view());
                assert(rv[i as int].1[j as int] == (
                    recs@[i as int].1@[j as int].0,
                    recs@[i as int].1@[j as int].1@,
                ));
                assert(es.deep_view() =~= prev.push(rv[i as int].1[j as int]));
                assert(rv[i as int].1.take(j + 1) =~= rv[i as int].1.take(j as int).push(
                    rv[i as int].1[j as int],
                ));
            }
            j = j + 1;
        }
        proof {
            assert(rv[i as int].1.take(m as int) =~= rv[i as int].1);
        }
        let x = (recs[i].0.clone(), es);
        let ghost xv = (x.0@, x.1.deep_view());
        proof {
            assert(recs.deep_view()[i as int].0 == recs@[i as int].0@);
            assert(xv == rv[i as int]);
        }
        let mut pos: usize = out.len();
        while pos > 0 && !str_lex_le(out[pos - 1].0.as_str(), x.0.as_str())
            invariant
                0 <= pos <= out@.len(),
                xv.0 == x.0@,
                forall|j2: int|
                    pos <= j2 < out@.len() ==> !lex_le((#[trigger] out@[j2]).0@, xv.0),
            decreases pos,
        {
            pos = pos - 1;
        }
        proof {
            assert(forall|j2: int|
                0 <= j2 < out@.len() ==> (#[trigger] out.deep_view()[j2]).0 == out@[j2].0@);
            lemma_insert_lex_at(out.deep_view(), xv, pos as int);
            assert(rv.take(i + 1).drop_last() =~= rv.take(i as int));
            assert(rv.take(i + 1).last() == rv[i as int]);
        }
        let ghost prevout = out.deep_view();
        out.insert(pos, x);
        proof {
            assert(out.deep_view() =~= prevout.take(pos as int) + seq![xv] + prevout.skip(
                pos as int,
            ));
        }
        i = i + 1;
    }
    proof {
        assert(rv.take(n as int) =~= rv);
    }
    out
}

} // verus!
