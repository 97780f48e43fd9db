//! Reading the status line that the engine prints after evaluating datasets.
//!
//! A line reads `[<iter>]\t<name>-<metric>:<score>\t...`. Scores are kept as the text
//! that the engine wrote; turning them into numbers is left to the caller.
use crate::error::{ErrorKind, XGBError};
use crate::ordered::{
    eval_entries, find_key, insert_eval, insert_metric, lemma_find_key_bounds, metric_entries,
    new_eval_map, new_metric_map, ordered_insert,
};
use crate::text::{chars_eq, chars_of, lemma_split_nonempty, split_chars, split_spec, string_of};
use indexmap::IndexMap;
use vstd::prelude::*;

verus! {

/// One entry of a line: dataset name, metric name, score text.
pub type EvalEntry = (Seq<char>, Seq<char>, Seq<char>);

/// `token` starts with `name` followed by `-`.
pub open spec fn names_match(token: Seq<char>, name: Seq<char>) -> bool {
    token.len() > name.len() && token.take(name.len() as int) == name && token[name.len() as int]
        == '-'
}

/// Metric name and score of `<metric>:<score>`; `None` unless there is exactly one `:`.
pub open spec fn metric_score(rest: Seq<char>) -> Option<(Seq<char>, Seq<char>)> {
    let parts = split_spec(rest, ':');
    if parts.len() == 2 {
        Some((parts[0], parts[1]))
    } else {
        None
    }
}

/// Entries that one token gives when tested against each name in turn.
pub open spec fn token_entries(token: Seq<char>, names: Seq<Seq<char>>) -> Option<Seq<EvalEntry>>
    decreases names.len(),
{
    if names.len() == 0 {
        Some(Seq::empty())
    } else {
        match token_entries(token, names.drop_last()) {
            None => None,
            Some(es) => {
                let n = names.last();
                if names_match(token, n) {
                    match metric_score(token.skip(n.len() + 1 as int)) {
                        None => None,
                        Some(ms) => Some(es.push((n, ms.0, ms.1))),
                    }
                } else {
                    Some(es)
                }
            },
        }
    }
}

/// Entries of a sequence of tokens, in order.
pub open spec fn tokens_entries(tokens: Seq<Seq<char>>, names: Seq<Seq<char>>) -> Option<
    Seq<EvalEntry>,
>
    decreases tokens.len(),
{
    if tokens.len() == 0 {
        Some(Seq::empty())
    } else {
        match tokens_entries(tokens.drop_last(), names) {
            None => None,
            Some(a) => match token_entries(tokens.last(), names) {
                None => None,
                Some(b) => Some(a + b),
            },
        }
    }
}

/// Entries of an evaluation line: every tab-separated token after the first.
pub open spec fn line_entries(line: Seq<char>, names: Seq<Seq<char>>) -> Option<Seq<EvalEntry>> {
    tokens_entries(split_spec(line, '\t').drop_first(), names)
}

/// Dataset names in the order of their first entry.
pub open spec fn datasets_in_order(es: Seq<EvalEntry>) -> Seq<Seq<char>>
    decreases es.len(),
{
    if es.len() == 0 {
        Seq::empty()
    } else {
        let prev = datasets_in_order(es.drop_last());
        if prev.contains(es.last().0) {
            prev
        } else {
            prev.push(es.last().0)
        }
    }
}

/// Metrics of one dataset: first-seen order, last score wins.
pub open spec fn metrics_for(es: Seq<EvalEntry>, dataset: Seq<char>) -> Seq<(Seq<char>, Seq<char>)>
    decreases es.len(),
{
    if es.len() == 0 {
        Seq::empty()
    } else {
        let prev = metrics_for(es.drop_last(), dataset);
        if es.last().0 == dataset {
            ordered_insert(prev, es.last().1, es.last().2)
        } else {
            prev
        }
    }
}

/// The nested result: each dataset with its metrics.
pub open spec fn eval_model(es: Seq<EvalEntry>) -> Seq<(Seq<char>, Seq<(Seq<char>, Seq<char>)>)> {
    datasets_in_order(es).map_values(|d: Seq<char>| (d, metrics_for(es, d)))
}

/// Description carried by the error for a malformed line.
pub open spec fn eval_error_text(line: Seq<char>) -> Seq<char> {
    "Unable to parse evaluation line: "@ + line
}

pub proof fn lemma_datasets_contains(es: Seq<EvalEntry>, d: Seq<char>)
    ensures
        datasets_in_order(es).contains(d) <==> exists|j: int|
            0 <= j < es.len() && #[trigger] es[j].0 == d,
    decreases es.len(),
{
    if es.len() > 0 {
        let prev = es.drop_last();
        let pd = datasets_in_order(prev);
        let ds = datasets_in_order(es);
        lemma_datasets_contains(prev, d);
        if exists|j: int| 0 <= j < es.len() && #[trigger] es[j].0 == d {
            let j = choose|j: int| 0 <= j < es.len() && #[trigger] es[j].0 == d;
            if j < es.len() - 1 {
                assert(prev[j].0 == d);
                let idx = choose|idx: int| 0 <= idx < pd.len() && pd[idx] == d;
                if !pd.contains(es.last().0) {
                    assert(ds[idx] == d);
                }
            } else if !pd.contains(es.last().0) {
                assert(ds[pd.len() as int] == d);
            }
        }
        if ds.contains(d) {
            let idx = choose|idx: int| 0 <= idx < ds.len() && ds[idx] == d;
            if !pd.contains(es.last().0) && idx == pd.len() {
                assert(es[es.len() - 1].0 == d);
            } else {
                assert(pd[idx] == d);
                let j = choose|j: int| 0 <= j < prev.len() && #[trigger] prev[j].0 == d;
                assert(es[j].0 == d);
            }
        }
    }
}

pub proof fn lemma_token_none_extends(t: Seq<char>, ns: Seq<Seq<char>>, k: int)
    requires
        0 <= k <= ns.len(),
        token_entries(t, ns.take(k)) is None,
    ensures
        token_entries(t, ns) is None,
    decreases ns.len(),
{
    if k == ns.len() {
        assert(ns.take(k) =~= ns);
    } else {
        assert(ns.drop_last().take(k) =~= ns.take(k));
        lemma_token_none_extends(t, ns.drop_last(), k);
    }
}

pub proof fn lemma_tokens_none_extends(ts: Seq<Seq<char>>, ns: Seq<Seq<char>>, k: int)
    requires
        0 <= k <= ts.len(),
        tokens_entries(ts.take(k), ns) is None,
    ensures
        tokens_entries(ts, ns) is None,
    decreases ts.len(),
{
    if k == ts.len() {
        assert(ts.take(k) =~= ts);
    } else {
        assert(ts.drop_last().take(k) =~= ts.take(k));
        lemma_tokens_none_extends(ts.drop_last(), ns, k);
    }
}

/// Whether `token` starts with `name` followed by `-`.
fn token_names(token: &[char], name: &[char]) -> (r: bool)
    ensures
        r == names_match(token@, name@),
{
    if token.len() <= name.len() {
        return false;
    }
    let mut i: usize = 0;
    while i < name.len()
        invariant
            token@.len() > name@.len(),
            i <= name@.len(),
            forall|k: int| 0 <= k < i ==> token@[k] == name@[k],
        decreases name.len() - i,
    {
        if token[i] != name[i] {
            return false;
        }
        i = i + 1;
    }
    assert(token@.take(name@.len() as int) =~= name@);
    token[name.len()] == '-'
}

/// The characters of `s` from `from` on.
fn tail_of(s: &[char], from: usize) -> (r: Vec<char>)
    requires
        from <= s@.len(),
    ensures
        r@ == s@.skip(from as int),
{
    let mut r: Vec<char> = Vec::new();
    let mut i: usize = from;
    while i < s.len()
        invariant
            from <= i <= s@.len(),
            r@ == s@.subrange(from as int, i as int),
        decreases s.len() - i,
    {
        r.push(s[i]);
        i = i + 1;
        assert(r@ =~= s@.subrange(from as int, i as int));
    }
    assert(r@ =~= s@.skip(from as int));
    r
}

/// View of entries held as (name position, metric, score).
pub open spec fn entries_view(v: Seq<(usize, Vec<char>, Vec<char>)>, names: Seq<Vec<char>>) -> Seq<
    EvalEntry,
> {
    v.map_values(|e: (usize, Vec<char>, Vec<char>)| (names[e.0 as int]@, e.1@, e.2@))
}

pub open spec fn char_seqs(v: Seq<Vec<char>>) -> Seq<Seq<char>> {
    v.map_values(|n: Vec<char>| n@)
}

/// Appends the entries of one token; `false` on a malformed entry.
fn push_token_entries(
    token: &Vec<char>,
    names: &Vec<Vec<char>>,
    out: &mut Vec<(usize, Vec<char>, Vec<char>)>,
) -> (ok: bool)
    requires
        forall|i: int| 0 <= i < old(out)@.len() ==> #[trigger] old(out)@[i].0 < names@.len(),
    ensures
        forall|i: int| 0 <= i < final(out)@.len() ==> #[trigger] final(out)@[i].0 < names@.len(),
        ok ==> token_entries(token@, char_seqs(names@)) == Some(
            entries_view(final(out)@, names@).skip(old(out)@.len() as int),
        ),
        ok ==> entries_view(final(out)@, names@).take(old(out)@.len() as int) == entries_view(
            old(out)@,
            names@,
        ),
        ok ==> final(out)@.len() >= old(out)@.len(),
        !ok ==> token_entries(token@, char_seqs(names@)) is None,
{
    let ghost nv = char_seqs(names@);
    let ghost before = entries_view(out@, names@);
    let ghost mut acc: Seq<EvalEntry> = Seq::empty();
    let mut k: usize = 0;
    assert(nv.take(0) =~= Seq::<Seq<char>>::empty());
    while k < names.len()
        invariant
            k <= names@.len(),
            nv == char_seqs(names@),
            forall|i: int| 0 <= i < out@.len() ==> #[trigger] out@[i].0 < names@.len(),
            out@.len() >= old(out)@.len(),
            before == entries_view(old(out)@, names@),
            entries_view(out@, names@) == before + acc,
            token_entries(token@, nv.take(k as int)) == Some(acc),
        decreases names.len() - k,
    {
        let ghost prev_out = out@;
        assert(nv.take(k + 1 as int).drop_last() =~= nv.take(k as int));
        assert(nv.take(k + 1 as int).last() == names@[k as int]@);
        let name: &Vec<char> = &names[k];
        if token_names(token.as_slice(), name.as_slice()) {
            let tl = token.len();
            assert(name@.len() < tl);
            let rest = tail_of(token.as_slice(), name.len() + 1);
            let parts = split_chars(rest.as_slice(), ':');
            if parts.len() != 2 {
                proof {
                    lemma_token_none_extends(token@, nv, k + 1);
                }
                return false;
            }
            let metric = copy_chars(&parts[0]);
            let score = copy_chars(&parts[1]);
            out.push((k, metric, score));
            proof {
                acc = acc.push((names@[k as int]@, parts@[0]@, parts@[1]@));
                assert(entries_view(out@, names@) =~= entries_view(prev_out, names@).push(
                    (names@[k as int]@, parts@[0]@, parts@[1]@),
                ));
            }
        }
        k = k + 1;
        assert(entries_view(out@, names@) =~= before + acc);
    }
    assert(nv.take(names@.len() as int) =~= nv);
    assert(entries_view(out@, names@).skip(before.len() as int) =~= acc);
    assert(entries_view(out@, names@).take(before.len() as int) =~= before);
    true
}

fn copy_chars(v: &Vec<char>) -> (r: Vec<char>)
    ensures
        r@ == v@,
{
    let mut r: Vec<char> = Vec::new();
    let mut i: usize = 0;
    while i < v.len()
        invariant
            i <= v@.len(),
            r@ == v@.take(i as int),
        decreases v.len() - i,
    {
        r.push(v[i]);
        i = i + 1;
        assert(r@ =~= v@.take(i as int));
    }
    assert(r@ =~= v@);
    r
}

/// Entries of the line, or `None` on a malformed one.
fn collect_entries(tokens: &Vec<Vec<char>>, names: &Vec<Vec<char>>) -> (r: Option<
    Vec<(usize, Vec<char>, Vec<char>)>,
>)
    requires
        tokens@.len() >= 1,
    ensures
        match r {
            None => tokens_entries(char_seqs(tokens@).drop_first(), char_seqs(names@)) is None,
            Some(v) => {
                &&& forall|k: int| 0 <= k < v@.len() ==> #[trigger] v@[k].0 < names@.len()
                &&& tokens_entries(char_seqs(tokens@).drop_first(), char_seqs(names@)) == Some(
                    entries_view(v@, names@),
                )
            },
        },
{
    let ghost toks = char_seqs(tokens@).drop_first();
    let ghost nv = char_seqs(names@);
    let mut out: Vec<(usize, Vec<char>, Vec<char>)> = Vec::new();
    let mut t: usize = 1;
    assert(toks.take(0) =~= Seq::<Seq<char>>::empty());
    assert(entries_view(out@, names@) =~= Seq::<EvalEntry>::empty());
    while t < tokens.len()
        invariant
            1 <= t <= tokens@.len(),
            toks == char_seqs(tokens@).drop_first(),
            nv == char_seqs(names@),
            forall|k: int| 0 <= k < out@.len() ==> #[trigger] out@[k].0 < names@.len(),
            tokens_entries(toks.take(t - 1), nv) == Some(entries_view(out@, names@)),
        decreases tokens.len() - t,
    {
        let ghost before = entries_view(out@, names@);
        let ghost n_before = out@.len();
        let token: &Vec<char> = &tokens[t];
        assert(toks[t - 1] == token@);
        assert(toks.take(t as int).drop_last() =~= toks.take(t - 1));
        assert(toks.take(t as int).last() == token@);
        if !push_token_entries(token, names, &mut out) {
            proof {
                lemma_tokens_none_extends(toks, nv, t as int);
            }
            return None;
        }
        assert(entries_view(out@, names@) =~= before + entries_view(out@, names@).skip(
            n_before as int,
        ));
        t = t + 1;
    }
    assert(toks.take(t - 1) =~= toks);
    Some(out)
}

/// Metrics of `target` collected over every entry.
fn build_metrics(
    entries: &Vec<(usize, Vec<char>, Vec<char>)>,
    names: &Vec<Vec<char>>,
    target: &Vec<char>,
) -> (r: IndexMap<String, String>)
    requires
        forall|k: int| 0 <= k < entries@.len() ==> #[trigger] entries@[k].0 < names@.len(),
    ensures
        metric_entries(r) == metrics_for(entries_view(entries@, names@), target@),
{
    let ghost ev = entries_view(entries@, names@);
    let mut m = new_metric_map();
    let mut j: usize = 0;
    assert(ev.take(0) =~= Seq::<EvalEntry>::empty());
    while j < entries.len()
        invariant
            j <= entries@.len(),
            ev == entries_view(entries@, names@),
            forall|k: int| 0 <= k < entries@.len() ==> #[trigger] entries@[k].0 < names@.len(),
            metric_entries(m) == metrics_for(ev.take(j as int), target@),
        decreases entries.len() - j,
    {
        assert(ev.take(j + 1 as int).drop_last() =~= ev.take(j as int));
        assert(ev.take(j + 1 as int).last() == ev[j as int]);
        let e = &entries[j];
        if chars_eq(names[e.0].as_slice(), target.as_slice()) {
            let metric = string_of(e.1.as_slice());
            let score = string_of(e.2.as_slice());
            insert_metric(&mut m, metric, score);
        }
        j = j + 1;
    }
    assert(ev.take(j as int) =~= ev);
    m
}

/// The nested map of the entries: datasets in order of first entry.
fn build_results(entries: &Vec<(usize, Vec<char>, Vec<char>)>, names: &Vec<Vec<char>>) -> (r:
    IndexMap<String, IndexMap<String, String>>)
    requires
        forall|k: int| 0 <= k < entries@.len() ==> #[trigger] entries@[k].0 < names@.len(),
    ensures
        eval_entries(r) == eval_model(entries_view(entries@, names@)),
{
    let ghost ev = entries_view(entries@, names@);
    let mut m = new_eval_map();
    let mut i: usize = 0;
    assert(datasets_in_order(ev.take(0)).map_values(|d: Seq<char>| (d, metrics_for(ev, d)))
        =~= Seq::<(Seq<char>, Seq<(Seq<char>, Seq<char>)>)>::empty());
    while i < entries.len()
        invariant
            i <= entries@.len(),
            ev == entries_view(entries@, names@),
            forall|k: int| 0 <= k < entries@.len() ==> #[trigger] entries@[k].0 < names@.len(),
            eval_entries(m) == datasets_in_order(ev.take(i as int)).map_values(
                |d: Seq<char>| (d, metrics_for(ev, d)),
            ),
        decreases entries.len() - i,
    {
        let name: &Vec<char> = &names[entries[i].0];
        assert(ev[i as int].0 == name@);
        let mut seen = false;
        let mut j: usize = 0;
        while j < i && !seen
            invariant
                j <= i < entries@.len(),
                ev == entries_view(entries@, names@),
                forall|k: int| 0 <= k < entries@.len() ==> #[trigger] entries@[k].0 < names@.len(),
                seen == exists|l: int| 0 <= l < j && #[trigger] ev[l].0 == name@,
            decreases i - j,
        {
            assert(ev[j as int].0 == names@[entries@[j as int].0 as int]@);
            if chars_eq(names[entries[j].0].as_slice(), name.as_slice()) {
                seen = true;
            }
            j = j + 1;
        }
        let ghost pre = ev.take(i as int);
        let ghost ds = datasets_in_order(pre);
        proof {
            lemma_datasets_contains(pre, name@);
            assert(ev.take(i + 1 as int).drop_last() =~= pre);
            assert(ev.take(i + 1 as int).last() == ev[i as int]);
            if seen {
                let l = choose|l: int| 0 <= l < j && #[trigger] ev[l].0 == name@;
                assert(pre[l].0 == name@);
            } else {
                assert forall|l: int| 0 <= l < pre.len() implies #[trigger] pre[l].0 != name@ by {
                    assert(pre[l] == ev[l]);
                }
            }
        }
        if !seen {
            let inner = build_metrics(entries, names, name);
            let key = string_of(name.as_slice());
            let ghost before = eval_entries(m);
            insert_eval(&mut m, key, inner);
            proof {
                lemma_find_key_bounds(before, name@);
                if find_key(before, name@) >= 0 {
                    assert(ds[find_key(before, name@)] == name@);
                }
                assert(eval_entries(m) =~= ds.push(name@).map_values(
                    |d: Seq<char>| (d, metrics_for(ev, d)),
                ));
            }
        }
        i = i + 1;
    }
    assert(ev.take(i as int) =~= ev);
    m
}

/// Reads an evaluation line: `[<iter>]\t<name>-<metric>:<score>\t...`.
///
/// The first token is skipped. Each later token is tested against every name in turn; it
/// belongs to a name when it starts with that name followed by `-`, and the remainder
/// must hold exactly one `:` between metric and score. The result maps each dataset, in
/// the order of its first entry, to its metrics in first-seen order, a repeated metric
/// keeping its place and taking the later score.
pub fn parse_eval_string(eval: &str, evnames: &[&str]) -> (r: Result<
    IndexMap<String, IndexMap<String, String>>,
    XGBError,
>)
    ensures
        match line_entries(eval@, evnames@.map_values(|s: &str| s@)) {
            None => r is Err && r->Err_0.kind == ErrorKind::Parse && r->Err_0.desc@
                == eval_error_text(eval@),
            Some(es) => r is Ok && eval_entries(r->Ok_0) == eval_model(es),
        },
{
    let line = chars_of(eval);
    let tokens = split_chars(line.as_slice(), '\t');
    proof {
        lemma_split_nonempty(eval@, '\t');
    }
    assert(char_seqs(tokens@) =~= split_spec(eval@, '\t'));
    let mut names: Vec<Vec<char>> = Vec::new();
    let mut k: usize = 0;
    while k < evnames.len()
        invariant
            k <= evnames@.len(),
            char_seqs(names@) == evnames@.map_values(|s: &str| s@).take(k as int),
        decreases evnames.len() - k,
    {
        let ghost prev = names@;
        let c = chars_of(evnames[k]);
        names.push(c);
        assert(names@ =~= prev.push(c));
        assert(char_seqs(names@) =~= char_seqs(prev).push(evnames@[k as int]@));
        k = k + 1;
        assert(char_seqs(names@) =~= evnames@.map_values(|s: &str| s@).take(k as int));
    }
    assert(char_seqs(names@) =~= evnames@.map_values(|s: &str| s@));
    match collect_entries(&tokens, &names) {
        None => {
            let mut desc = String::from_str("Unable to parse evaluation line: ");
            desc.append(eval);
            Err(XGBError::new(ErrorKind::Parse, desc))
        },
        Some(entries) => Ok(build_results(&entries, &names)),
    }
}

} // verus!
