//! The histogram aggregator: folds the characters emitted for every file, in
//! file order, into a mapping from character to occurrence count.

use vstd::prelude::*;
use crate::keymap::KeymapTable;
use crate::text::str_eq;
use crate::translator::{translate_content, translate_spec, TranslateError};

verus! {

/// One more occurrence: counts grow by one and stay put at `u64::MAX`, the
/// largest count the table can hold.
pub open spec fn bump(c: nat) -> nat {
    if c < u64::MAX {
        c + 1
    } else {
        c
    }
}

/// The count a mapping gives a key, zero when the key is absent.
pub open spec fn count_of(m: Map<Seq<char>, nat>, key: Seq<char>) -> nat {
    if m.contains_key(key) {
        m[key]
    } else {
        0
    }
}

/// The histogram of a character sequence: each element bumps its own count.
pub open spec fn hist_fold(cs: Seq<Seq<char>>) -> Map<Seq<char>, nat>
    decreases cs.len(),
{
    if cs.len() == 0 {
        Map::empty()
    } else {
        let m = hist_fold(cs.drop_last());
        m.insert(cs.last(), bump(count_of(m, cs.last())))
    }
}

/// How often `key` occurs in `cs`.
pub open spec fn occurrences(cs: Seq<Seq<char>>, key: Seq<char>) -> nat
    decreases cs.len(),
{
    if cs.len() == 0 {
        0
    } else {
        occurrences(cs.drop_last(), key) + (if cs.last() == key {
            1nat
        } else {
            0nat
        })
    }
}

/// A histogram entry holds exactly the number of occurrences of its key,
/// up to the largest count the table can hold; keys occur in the histogram
/// exactly when they occur in the sequence.
pub proof fn lemma_hist_fold_count(cs: Seq<Seq<char>>, key: Seq<char>)
    ensures
        occurrences(cs, key) <= u64::MAX ==> count_of(hist_fold(cs), key) == occurrences(cs, key),
        occurrences(cs, key) > u64::MAX ==> count_of(hist_fold(cs), key) == u64::MAX,
        hist_fold(cs).contains_key(key) <==> occurrences(cs, key) > 0,
    decreases cs.len(),
{
    if cs.len() > 0 {
        lemma_hist_fold_count(cs.drop_last(), key);
    }
}

/// A key occurs in a sequence only at some index.
pub proof fn lemma_occurrences_exists(cs: Seq<Seq<char>>, key: Seq<char>)
    requires
        occurrences(cs, key) > 0,
    ensures
        exists|i: int| 0 <= i < cs.len() && cs[i] == key,
    decreases cs.len(),
{
    if cs.len() > 0 {
        if cs.last() == key {
            assert(cs[cs.len() - 1] == key);
        } else {
            lemma_occurrences_exists(cs.drop_last(), key);
            let i = choose|i: int| 0 <= i < cs.drop_last().len() && cs.drop_last()[i] == key;
            assert(cs[i] == key);
        }
    }
}

/// The mapping a table's entry list denotes.
pub open spec fn hist_map_of(es: Seq<(String, u64)>) -> Map<Seq<char>, nat>
    decreases es.len(),
{
    if es.len() == 0 {
        Map::empty()
    } else {
        hist_map_of(es.drop_last()).insert(es.last().0@, es.last().1 as nat)
    }
}

/// A key none of the entries name is absent from the mapping.
pub proof fn lemma_hist_map_absent(es: Seq<(String, u64)>, key: Seq<char>)
    requires
        forall|j: int| 0 <= j < es.len() ==> es[j].0@ != key,
    ensures
        !hist_map_of(es).contains_key(key),
    decreases es.len(),
{
    if es.len() > 0 {
        lemma_hist_map_absent(es.drop_last(), key);
    }
}

/// An entry that no later entry overrides gives its key's mapping.
pub proof fn lemma_hist_map_found(es: Seq<(String, u64)>, i: int)
    requires
        0 <= i < es.len(),
        forall|j: int| i < j < es.len() ==> es[j].0@ != es[i].0@,
    ensures
        hist_map_of(es).contains_key(es[i].0@),
        hist_map_of(es)[es[i].0@] == es[i].1 as nat,
    decreases es.len(),
{
    if i < es.len() - 1 {
        lemma_hist_map_found(es.drop_last(), i);
    }
}

proof fn lemma_hist_map_update(es: Seq<(String, u64)>, i: int, p: (String, u64))
    requires
        0 <= i < es.len(),
        p.0@ == es[i].0@,
        forall|j: int, k: int| 0 <= j < k < es.len() ==> es[j].0@ != es[k].0@,
    ensures
        hist_map_of(es.update(i, p)) == hist_map_of(es).insert(p.0@, p.1 as nat),
    decreases es.len(),
{
    let es2 = es.update(i, p);
    if i == es.len() - 1 {
        assert(es2.drop_last() =~= es.drop_last());
        assert(hist_map_of(es2) =~= hist_map_of(es).insert(p.0@, p.1 as nat));
    } else {
        assert(es2.drop_last() =~= es.drop_last().update(i, p));
        lemma_hist_map_update(es.drop_last(), i, p);
        assert(es2.last() == es.last());
        assert(es.last().0@ != p.0@);
        assert(hist_map_of(es2) =~= hist_map_of(es).insert(p.0@, p.1 as nat));
    }
}

/// The histogram: a mapping from resolved character to occurrence count,
/// kept as an entry list with pairwise-distinct keys.
pub struct Histogram {
    pub entries: Vec<(String, u64)>,
}

impl View for Histogram {
    type V = Map<Seq<char>, nat>;

    open spec fn view(&self) -> Map<Seq<char>, nat> {
        hist_map_of(self.entries@)
    }
}

impl Histogram {
    /// No two entries name the same character.
    pub open spec fn wf(&self) -> bool {
        forall|j: int, k: int|
            0 <= j < k < self.entries@.len() ==> self.entries@[j].0@ != self.entries@[k].0@
    }

    /// An empty histogram.
    pub fn new() -> (r: Histogram)
        ensures
            r.wf(),
            r@ == Map::<Seq<char>, nat>::empty(),
    {
        Histogram { entries: Vec::new() }
    }

    /// The count recorded for `key`, zero when absent.
    pub fn count(&self, key: &str) -> (r: u64)
        requires
            self.wf(),
        ensures
            r as nat == count_of(self@, key@),
    {
        let n = self.entries.len();
        let mut i: usize = 0;
        while i < n
            invariant
                self.wf(),
                n == self.entries@.len(),
                i <= n,
                forall|j: int| 0 <= j < i ==> self.entries@[j].0@ != key@,
            decreases n - i,
        {
            if str_eq(self.entries[i].0.as_str(), key) {
                proof {
                    lemma_hist_map_found(self.entries@, i as int);
                }
                return self.entries[i].1;
            }
            i += 1;
        }
        proof {
            lemma_hist_map_absent(self.entries@, key@);
        }
        0
    }

    /// Record one occurrence of `ch`: its count is bumped, every other count
    /// stays.
    pub fn record(&mut self, ch: String)
        requires
            old(self).wf(),
        ensures
            final(self).wf(),
            final(self)@ == old(self)@.insert(ch@, bump(count_of(old(self)@, ch@))),
    {
        let n = self.entries.len();
        let mut i: usize = 0;
        while i < n
            invariant
                self.wf(),
                self == old(self),
                n == self.entries@.len(),
                i <= n,
                forall|j: int| 0 <= j < i ==> self.entries@[j].0@ != ch@,
            decreases n - i,
        {
            if str_eq(self.entries[i].0.as_str(), ch.as_str()) {
                proof {
                    lemma_hist_map_found(self.entries@, i as int);
                }
                let ghost before = self.entries@;
                let c = self.entries[i].1;
                let newc = if c < u64::MAX {
                    c + 1
                } else {
                    c
                };
                let pair = self.entries.remove(i);
                self.entries.insert(i, (pair.0, newc));
                proof {
                    assert(self.entries@ =~= before.update(i as int, (pair.0, newc)));
                    lemma_hist_map_update(before, i as int, (pair.0, newc));
                    assert(forall|j: int|
                        0 <= j < self.entries@.len() ==> self.entries@[j].0@ == before[j].0@);
                    assert(newc as nat == bump(count_of(old(self)@, ch@)));
                }
                return;
            }
            i += 1;
        }
        proof {
            lemma_hist_map_absent(self.entries@, ch@);
        }
        let ghost before = self.entries@;
        self.entries.push((ch, 1));
        proof {
            assert(self.entries@.drop_last() =~= before);
            assert(self.entries@.last().0@ == ch@);
            assert(bump(count_of(old(self)@, ch@)) == 1nat);
        }
    }
}

/// The characters all files emit, in file order, or the action token of the
/// first aborting line of the first aborting file.
pub open spec fn run_all(km: Map<Seq<char>, Seq<char>>, files: Seq<Seq<char>>) -> Result<
    Seq<Seq<char>>,
    Seq<char>,
>
    decreases files.len(),
{
    if files.len() == 0 {
        Ok(Seq::empty())
    } else {
        match run_all(km, files.drop_last()) {
            Ok(pre) => match translate_spec(km, files.last()) {
                Ok(cs) => Ok(pre + cs),
                Err(t) => Err(t),
            },
            Err(t) => Err(t),
        }
    }
}

/// The histogram of a whole run over the given file contents.
pub open spec fn histogram_spec(km: Map<Seq<char>, Seq<char>>, files: Seq<Seq<char>>) -> Result<
    Map<Seq<char>, nat>,
    Seq<char>,
> {
    match run_all(km, files) {
        Ok(cs) => Ok(hist_fold(cs)),
        Err(t) => Err(t),
    }
}

/// Running the pipeline twice on byte-identical file contents and an
/// unchanged keymap table yields identical histograms.
pub proof fn lemma_histogram_idempotent(
    km: Map<Seq<char>, Seq<char>>,
    files: Seq<Seq<char>>,
    r1: Result<Map<Seq<char>, nat>, Seq<char>>,
    r2: Result<Map<Seq<char>, nat>, Seq<char>>,
)
    requires
        r1 == histogram_spec(km, files),
        r2 == histogram_spec(km, files),
    ensures
        r1 == r2,
{
}

proof fn lemma_run_all_err(km: Map<Seq<char>, Seq<char>>, files: Seq<Seq<char>>, i: int, t: Seq<char>)
    requires
        0 <= i < files.len(),
        run_all(km, files.take(i)) is Ok,
        translate_spec(km, files[i]) == Err::<Seq<Seq<char>>, Seq<char>>(t),
    ensures
        run_all(km, files) == Err::<Seq<Seq<char>>, Seq<char>>(t),
    decreases files.len(),
{
    if i == files.len() - 1 {
        assert(files.drop_last() =~= files.take(i));
    } else {
        assert(files.drop_last().take(i) =~= files.take(i));
        assert(files.drop_last()[i] == files[i]);
        lemma_run_all_err(km, files.drop_last(), i, t);
    }
}

/// Fold the characters of every file, in file order, into one histogram, or
/// fail on the first unrecognized action token of any file.
pub fn calculate_histogram(contents: &Vec<String>, km: &KeymapTable) -> (r: Result<
    Histogram,
    TranslateError,
>)
    ensures
        match r {
            Ok(h) => h.wf() && histogram_spec(km@, contents.deep_view()) == Ok::<
                Map<Seq<char>, nat>,
                Seq<char>,
            >(h@),
            Err(e) => histogram_spec(km@, contents.deep_view()) == Err::<
                Map<Seq<char>, nat>,
                Seq<char>,
            >(e.action@),
        },
{
    let ghost dv = contents.deep_view();
    let mut h = Histogram::new();
    let ghost mut acc: Seq<Seq<char>> = Seq::empty();
    let mut fi: usize = 0;
    proof {
        assert(dv.take(0) =~= Seq::<Seq<char>>::empty());
        assert(run_all(km@, dv.take(0)) == Ok::<Seq<Seq<char>>, Seq<char>>(acc));
    }
    while fi < contents.len()
        invariant
            dv == contents.deep_view(),
            dv.len() == contents@.len(),
            fi <= contents.len(),
            run_all(km@, dv.take(fi as int)) == Ok::<Seq<Seq<char>>, Seq<char>>(acc),
            h.wf(),
            h@ == hist_fold(acc),
        decreases contents.len() - fi,
    {
        let file: &String = &contents[fi];
        proof {
            assert(dv[fi as int] == file@);
        }
        match translate_content(file.as_str(), km) {
            Ok(chars) => {
                let ghost cdv = chars.deep_view();
                let n = chars.len();
                let mut ci: usize = 0;
                proof {
                    assert(acc + cdv.take(0) =~= acc);
                }
                while ci < n
                    invariant
                        cdv == chars.deep_view(),
                        cdv.len() == chars@.len(),
                        n == chars@.len(),
                        ci <= n,
                        h.wf(),
                        h@ == hist_fold(acc + cdv.take(ci as int)),
                    decreases n - ci,
                {
                    let ghost pref = acc + cdv.take(ci as int);
                    let c: &String = &chars[ci];
                    proof {
                        assert(cdv[ci as int] == c@);
                        assert(acc + cdv.take(ci as int + 1) =~= pref.push(c@));
                        assert(pref.push(c@).drop_last() =~= pref);
                    }
                    h.record(c.clone());
                    ci += 1;
                }
                proof {
                    assert(cdv.take(n as int) =~= cdv);
                    assert(dv.take(fi as int + 1).drop_last() =~= dv.take(fi as int));
                    assert(dv.take(fi as int + 1).last() == dv[fi as int]);
                    acc = acc + cdv;
                    assert(run_all(km@, dv.take(fi as int + 1)) == Ok::<
                        Seq<Seq<char>>,
                        Seq<char>,
                    >(acc));
                }
            },
            Err(e) => {
                proof {
                    lemma_run_all_err(km@, dv, fi as int, e.action@);
                }
                return Err(e);
            },
        }
        fi += 1;
    }
    proof {
        assert(dv.take(dv.len() as int) =~= dv);
    }
    Ok(h)
}

} // verus!
