//! The list of staged paths: both sides of every delta between the head tree
//! and the index, joined onto the repository root, without repetitions.
use vstd::prelude::*;

verus! {

/// `rel` under `root`, with `/` as the separator, as git writes paths: an
/// absolute `rel` stands alone, and no separator is doubled after the root.
pub open spec fn joined(root: Seq<char>, rel: Seq<char>) -> Seq<char> {
    if rel.len() > 0 && rel[0] == '/' {
        rel
    } else if root.len() == 0 || root.last() == '/' {
        root + rel
    } else {
        root + seq!['/'] + rel
    }
}

/// The character sequences of a sequence of strings.
pub open spec fn views(v: Seq<String>) -> Seq<Seq<char>> {
    v.map_values(|s: String| s@)
}

/// `s` without its repetitions: each element stays where it first occurs.
pub open spec fn dedup<A>(s: Seq<A>) -> Seq<A>
    decreases s.len(),
{
    if s.len() == 0 {
        s
    } else {
        let d = dedup(s.drop_last());
        if d.contains(s.last()) {
            d
        } else {
            d.push(s.last())
        }
    }
}

/// No element occurs twice.
pub open spec fn distinct<A>(s: Seq<A>) -> bool {
    forall|i: int, j: int| 0 <= i < j < s.len() ==> s[i] != s[j]
}

/// Deduplicating leaves no element twice.
pub proof fn lemma_dedup_distinct<A>(s: Seq<A>)
    ensures
        distinct(dedup(s)),
    decreases s.len(),
{
    if s.len() > 0 {
        lemma_dedup_distinct(s.drop_last());
        let d = dedup(s.drop_last());
        if !d.contains(s.last()) {
            assert forall|i: int, j: int| 0 <= i < j < d.len() + 1 implies d.push(s.last())[i] != d.push(
                s.last(),
            )[j] by {
                if j == d.len() && d[i] == s.last() {
                    assert(d.contains(s.last()));
                }
            }
        }
    }
}

/// Deduplicating keeps exactly the elements of the sequence.
pub proof fn lemma_dedup_same_elements<A>(s: Seq<A>)
    ensures
        forall|x: A| dedup(s).contains(x) <==> s.contains(x),
    decreases s.len(),
{
    if s.len() > 0 {
        let t = s.drop_last();
        let l = s.last();
        let d = dedup(t);
        lemma_dedup_same_elements(t);
        assert(dedup(s) == (if d.contains(l) { d } else { d.push(l) }));
        assert forall|x: A| dedup(s).contains(x) <==> s.contains(x) by {
            if s.contains(x) {
                let k = choose|k: int| 0 <= k < s.len() && s[k] == x;
                if k < t.len() {
                    assert(t[k] == x);
                }
            }
            if t.contains(x) {
                let m = choose|m: int| 0 <= m < t.len() && t[m] == x;
                assert(s[m] == x);
            }
            assert(s[s.len() - 1] == l);
            if !d.contains(l) {
                let e = d.push(l);
                if e.contains(x) {
                    let k = choose|k: int| 0 <= k < e.len() && e[k] == x;
                    if k < d.len() {
                        assert(d[k] == x);
                    }
                }
                if d.contains(x) {
                    let k = choose|k: int| 0 <= k < d.len() && d[k] == x;
                    assert(e[k] == x);
                }
                assert(e[d.len() as int] == l);
            }
        }
    }
}

/// Deduplicating keeps the order of first occurrence: wherever an element of
/// the result occurs in the sequence, every element before it in the result
/// has already occurred.
pub proof fn lemma_dedup_first_seen_order<A>(s: Seq<A>)
    ensures
        forall|i: int, j: int, q: int|
            #![trigger dedup(s)[i], dedup(s)[j], s[q]]
            0 <= i < j < dedup(s).len() && 0 <= q < s.len() && s[q] == dedup(s)[j] ==> s.take(
                q,
            ).contains(dedup(s)[i]),
    decreases s.len(),
{
    if s.len() > 0 {
        let t = s.drop_last();
        let d = dedup(t);
        let x = s.last();
        lemma_dedup_first_seen_order(t);
        lemma_dedup_same_elements(t);
        assert(dedup(s) == (if d.contains(x) { d } else { d.push(x) }));
        assert forall|i: int, j: int, q: int|
            #![trigger dedup(s)[i], dedup(s)[j], s[q]]
            0 <= i < j < dedup(s).len() && 0 <= q < s.len() && s[q] == dedup(s)[j] implies s.take(
                q,
            ).contains(dedup(s)[i]) by {
            let e = dedup(s)[i];
            assert(d[i] == e);
            assert(d.contains(e));
            assert(dedup(t).contains(e) <==> t.contains(e));
            assert(t.contains(e));
            let m = choose|m: int| 0 <= m < t.len() && t[m] == e;
            if q < t.len() {
                assert(t[q] == s[q]);
                assert(t.take(q) =~= s.take(q));
                if j < d.len() {
                    assert(d[j] == dedup(s)[j]);
                } else {
                    assert(t.contains(x));
                }
            } else {
                assert(s.take(q) =~= t);
                assert(s.take(q)[m] == e);
            }
        }
    }
}

/// A sequence without repetitions is its own deduplication.
pub proof fn lemma_dedup_of_distinct<A>(s: Seq<A>)
    requires
        distinct(s),
    ensures
        dedup(s) == s,
    decreases s.len(),
{
    if s.len() > 0 {
        let t = s.drop_last();
        assert(distinct(t));
        lemma_dedup_of_distinct(t);
        if t.contains(s.last()) {
            let k = choose|k: int| 0 <= k < t.len() && t[k] == s.last();
            assert(s[k] == s[s.len() - 1]);
        }
        assert(t.push(s.last()) =~= s);
    }
}

/// Deduplicating an already deduplicated sequence changes nothing.
pub proof fn lemma_dedup_idempotent<A>(s: Seq<A>)
    ensures
        dedup(dedup(s)) == dedup(s),
{
    lemma_dedup_distinct(s);
    lemma_dedup_of_distinct(dedup(s));
}

/// One change between the head tree and the index, by the paths of its two
/// sides relative to the repository root; an added file has no old side and
/// a deleted one no new side.
pub struct FileDelta {
    pub old_path: Option<String>,
    pub new_path: Option<String>,
}

/// The path of a side of a delta, if it has one.
pub open spec fn side(p: Option<String>) -> Seq<Seq<char>> {
    match p {
        Some(s) => seq![s@],
        None => Seq::empty(),
    }
}

/// Both sides of every delta, old before new, in the order of the deltas.
pub open spec fn delta_paths(ds: Seq<FileDelta>) -> Seq<Seq<char>>
    decreases ds.len(),
{
    if ds.len() == 0 {
        Seq::empty()
    } else {
        delta_paths(ds.drop_last()) + side(ds.last().old_path) + side(ds.last().new_path)
    }
}

/// A working tree, known by the path of its root.
pub struct Repo {
    pub root: String,
}

/// `rel` joined onto `root`.
pub fn join_path(root: &str, rel: &str) -> (r: String)
    ensures
        r@ == joined(root@, rel@),
{
    if rel.unicode_len() > 0 && rel.get_char(0) == '/' {
        return rel.to_owned();
    }
    let n = root.unicode_len();
    let mut out = root.to_owned();
    if n > 0 && root.get_char(n - 1) != '/' {
        out.append("/");
    }
    out.append(rel);
    proof {
        reveal_strlit("/");
    }
    assert(out@ =~= joined(root@, rel@));
    out
}

/// Whether `p` occurs in `v`.
fn contains_path(v: &Vec<String>, p: &String) -> (r: bool)
    ensures
        r == views(v@).contains(p@),
{
    let mut k: usize = 0;
    while k < v.len()
        invariant
            k <= v.len(),
            forall|m: int| 0 <= m < k ==> v@[m]@ != p@,
        decreases v.len() - k,
    {
        if v[k] == *p {
            assert(views(v@)[k as int] == p@);
            return true;
        }
        k += 1;
    }
    assert forall|m: int| 0 <= m < views(v@).len() implies views(v@)[m] != p@ by {
        assert(views(v@)[m] == v@[m]@);
    }
    false
}

/// The paths in their order, each where it first occurs and nowhere after.
pub fn dedup_paths(paths: &Vec<String>) -> (r: Vec<String>)
    ensures
        views(r@) == dedup(views(paths@)),
{
    let mut out: Vec<String> = Vec::new();
    let mut i: usize = 0;
    while i < paths.len()
        invariant
            i <= paths.len(),
            views(out@) == dedup(views(paths@).take(i as int)),
        decreases paths.len() - i,
    {
        let ghost before = views(paths@).take(i as int);
        let ghost after = views(paths@).take(i + 1);
        assert(after.drop_last() =~= before);
        assert(after.last() == paths@[i as int]@);
        if !contains_path(&out, &paths[i]) {
            let ghost old_out = out@;
            out.push(paths[i].clone());
            assert(views(out@) =~= views(old_out).push(paths@[i as int]@));
        }
        i += 1;
    }
    assert(views(paths@).take(paths.len() as int) =~= views(paths@));
    out
}

/// The path of a side of a delta, if it has one, after those in `out`.
fn push_side(p: &Option<String>, out: &mut Vec<String>)
    ensures
        views(final(out)@) == views(old(out)@) + side(*p),
{
    let ghost start = views(out@);
    match p {
        Some(s) => {
            out.push(s.clone());
            assert(views(out@) =~= start + side(*p));
        },
        None => {
            assert(views(out@) =~= start + side(*p));
        },
    }
}

/// Both sides of every delta, old before new, in the order of the deltas.
pub fn changed_paths(deltas: &Vec<FileDelta>) -> (r: Vec<String>)
    ensures
        views(r@) == delta_paths(deltas@),
{
    let mut all: Vec<String> = Vec::new();
    let mut i: usize = 0;
    while i < deltas.len()
        invariant
            i <= deltas.len(),
            views(all@) == delta_paths(deltas@.take(i as int)),
        decreases deltas.len() - i,
    {
        assert(deltas@.take(i + 1).drop_last() =~= deltas@.take(i as int));
        push_side(&deltas[i].old_path, &mut all);
        push_side(&deltas[i].new_path, &mut all);
        i += 1;
    }
    assert(deltas@.take(deltas.len() as int) =~= deltas@);
    all
}

/// A staged file, by its path relative to the repository root, as git gives
/// it, and by that path joined onto the root.
pub struct StagedPath {
    pub relative: String,
    pub absolute: String,
}

/// The relative and absolute forms of each staged file.
pub open spec fn pair_views(v: Seq<StagedPath>) -> Seq<(Seq<char>, Seq<char>)> {
    v.map_values(|p: StagedPath| (p.relative@, p.absolute@))
}

/// Each relative path with its form under `root`.
pub open spec fn under_root(root: Seq<char>, rels: Seq<Seq<char>>) -> Seq<(Seq<char>, Seq<char>)> {
    rels.map_values(|q: Seq<char>| (q, joined(root, q)))
}

/// The absolute forms.
pub open spec fn absolutes(v: Seq<(Seq<char>, Seq<char>)>) -> Seq<Seq<char>> {
    v.map_values(|p: (Seq<char>, Seq<char>)| p.1)
}

/// Each staged file in the order given, kept where its absolute form first
/// occurs and dropped wherever that form has occurred before.
pub open spec fn dedup_by_absolute(s: Seq<(Seq<char>, Seq<char>)>) -> Seq<(Seq<char>, Seq<char>)>
    decreases s.len(),
{
    if s.len() == 0 {
        s
    } else {
        let d = dedup_by_absolute(s.drop_last());
        if absolutes(d).contains(s.last().1) {
            d
        } else {
            d.push(s.last())
        }
    }
}

/// The absolute forms of the files that `dedup_by_absolute` keeps are the
/// absolute forms of all the files, without repetitions.
pub proof fn lemma_dedup_by_absolute(s: Seq<(Seq<char>, Seq<char>)>)
    ensures
        absolutes(dedup_by_absolute(s)) == dedup(absolutes(s)),
        distinct(absolutes(dedup_by_absolute(s))),
    decreases s.len(),
{
    if s.len() > 0 {
        let t = s.drop_last();
        lemma_dedup_by_absolute(t);
        let d = dedup_by_absolute(t);
        assert(absolutes(s).drop_last() =~= absolutes(t));
        assert(absolutes(s).last() == s.last().1);
        assert(absolutes(d.push(s.last())) =~= absolutes(d).push(s.last().1));
    }
    lemma_dedup_distinct(absolutes(s));
}

/// Whether a staged file in `v` has the absolute form `p`.
fn contains_absolute(v: &Vec<StagedPath>, p: &String) -> (r: bool)
    ensures
        r == absolutes(pair_views(v@)).contains(p@),
{
    let mut k: usize = 0;
    while k < v.len()
        invariant
            k <= v.len(),
            forall|m: int| 0 <= m < k ==> v@[m].absolute@ != p@,
        decreases v.len() - k,
    {
        if v[k].absolute == *p {
            assert(absolutes(pair_views(v@))[k as int] == p@);
            return true;
        }
        k += 1;
    }
    assert forall|m: int| 0 <= m < absolutes(pair_views(v@)).len() implies absolutes(pair_views(v@))[m] != p@ by {
        assert(absolutes(pair_views(v@))[m] == v@[m].absolute@);
    }
    false
}

impl Repo {
    /// The staged files: both sides of each delta, in the order of the
    /// deltas, each with its form joined onto the root, kept where that
    /// joined form first occurs. No joined form occurs twice.
    pub fn staged_paths(&self, deltas: &Vec<FileDelta>) -> (r: Vec<StagedPath>)
        ensures
            pair_views(r@) == dedup_by_absolute(under_root(self.root@, delta_paths(deltas@))),
            absolutes(pair_views(r@)) == dedup(delta_paths(deltas@).map_values(|q: Seq<char>| joined(self.root@, q))),
            distinct(absolutes(pair_views(r@))),
    {
        let rels = changed_paths(deltas);
        let ghost all = under_root(self.root@, views(rels@));
        let mut out: Vec<StagedPath> = Vec::new();
        let mut i: usize = 0;
        while i < rels.len()
            invariant
                i <= rels.len(),
                all == under_root(self.root@, views(rels@)),
                pair_views(out@) == dedup_by_absolute(all.take(i as int)),
            decreases rels.len() - i,
        {
            let absolute = join_path(self.root.as_str(), rels[i].as_str());
            let ghost here = (rels@[i as int]@, absolute@);
            assert(all[i as int] == here);
            assert(all.take(i + 1).drop_last() =~= all.take(i as int));
            assert(all.take(i + 1).last() == here);
            if !contains_absolute(&out, &absolute) {
                let ghost before = out@;
                out.push(StagedPath { relative: rels[i].clone(), absolute });
                assert(pair_views(out@) =~= pair_views(before).push(here));
            }
            i += 1;
        }
        assert(all.take(rels.len() as int) =~= all);
        proof {
            lemma_dedup_by_absolute(all);
            assert(absolutes(all) =~= delta_paths(deltas@).map_values(|q: Seq<char>| joined(self.root@, q)));
        }
        out
    }

    /// The staged files, by their paths joined onto the root: both sides of
    /// each delta, in the order of the deltas, each kept where it first
    /// occurs. No path occurs twice.
    pub fn staged_files(&self, deltas: &Vec<FileDelta>) -> (r: Vec<String>)
        ensures
            views(r@) == dedup(delta_paths(deltas@).map_values(|q: Seq<char>| joined(self.root@, q))),
            distinct(views(r@)),
    {
        let staged = self.staged_paths(deltas);
        let ghost want = absolutes(pair_views(staged@));
        assert(want.len() == staged@.len());
        let mut out: Vec<String> = Vec::new();
        let mut i: usize = 0;
        while i < staged.len()
            invariant
                i <= staged.len(),
                want == absolutes(pair_views(staged@)),
                want.len() == staged@.len(),
                views(out@) == want.take(i as int),
            decreases staged.len() - i,
        {
            assert(want[i as int] == staged@[i as int].absolute@);
            let ghost before = out@;
            out.push(staged[i].absolute.clone());
            assert(views(out@) =~= views(before).push(want[i as int]));
            assert(want.take(i + 1) =~= want.take(i as int).push(want[i as int]));
            i += 1;
        }
        assert(want.take(staged.len() as int) =~= want);
        out
    }
}

} // verus!
