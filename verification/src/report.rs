//! The reporter: orders the histogram's entries ascending by count (ties in
//! arbitrary order) and renders each as a `character: count` line.

use vstd::prelude::*;
use vstd::multiset::Multiset;
use vstd::string::StringExecFns;
use crate::histogram::{hist_map_of, lemma_hist_map_found, Histogram};

verus! {

/// Counts never decrease along the sequence.
pub open spec fn sorted_by_count(s: Seq<(String, u64)>) -> bool {
    forall|i: int, j: int| 0 <= i < j < s.len() ==> s[i].1 <= s[j].1
}

proof fn lemma_hist_map_dom(es: Seq<(String, u64)>, key: Seq<char>)
    requires
        hist_map_of(es).contains_key(key),
    ensures
        exists|j: int| 0 <= j < es.len() && es[j].0@ == key,
    decreases es.len(),
{
    if es.len() > 0 {
        if es.last().0@ == key {
            assert(es[es.len() - 1].0@ == key);
        } else {
            lemma_hist_map_dom(es.drop_last(), key);
            let j = choose|j: int| 0 <= j < es.drop_last().len() && es.drop_last()[j].0@ == key;
            assert(es[j].0@ == key);
        }
    }
}

/// The histogram's entries as a list sorted ascending by count: a
/// permutation of the entry list, whose pairs are exactly the histogram's
/// character/count pairs.
pub fn sorted_counts(h: &Histogram) -> (r: Vec<(String, u64)>)
    requires
        h.wf(),
    ensures
        r@.to_multiset() == h.entries@.to_multiset(),
        sorted_by_count(r@),
        forall|i: int|
            0 <= i < r@.len() ==> h@.contains_key(#[trigger] r@[i].0@) && h@[r@[i].0@] == r@[i].1
                as nat,
        forall|key: Seq<char>|
            h@.contains_key(key) ==> exists|i: int| 0 <= i < r@.len() && #[trigger] r@[i].0@ == key,
        forall|i: int, j: int| 0 <= i < j < r@.len() ==> r@[i].0@ != r@[j].0@,
{
    broadcast use vstd::seq_lib::group_to_multiset_ensures;
    broadcast use vstd::multiset::group_multiset_axioms;

    let n = h.entries.len();
    let mut src: Vec<(String, u64)> = Vec::new();
    let mut i: usize = 0;
    while i < n
        invariant
            n == h.entries@.len(),
            i <= n,
            src@ =~= h.entries@.take(i as int),
        decreases n - i,
    {
        let p = (h.entries[i].0.clone(), h.entries[i].1);
        proof {
            assert(p == h.entries@[i as int]);
            assert(src@.push(p) =~= h.entries@.take(i as int + 1));
        }
        src.push(p);
        i += 1;
    }
    proof {
        assert(h.entries@.take(n as int) =~= h.entries@);
    }
    let mut out: Vec<(String, u64)> = Vec::new();
    proof {
        assert(out@.to_multiset().add(src@.to_multiset()) =~= h.entries@.to_multiset());
    }
    while src.len() > 0
        invariant
            out@.to_multiset().add(src@.to_multiset()) == h.entries@.to_multiset(),
            sorted_by_count(out@),
            forall|a: int, b: int|
                0 <= a < out@.len() && 0 <= b < src@.len() ==> out@[a].1 <= src@[b].1,
        decreases src@.len(),
    {
        let mut m: usize = 0;
        let mut k: usize = 1;
        while k < src.len()
            invariant
                src@.len() > 0,
                m < k,
                k <= src@.len(),
                forall|j: int| 0 <= j < k ==> src@[m as int].1 <= src@[j].1,
            decreases src@.len() - k,
        {
            if src[k].1 < src[m].1 {
                m = k;
            }
            k += 1;
        }
        let ghost out0 = out@;
        let ghost src0 = src@;
        let p = src.remove(m);
        out.push(p);
        proof {
            assert(out@ == out0.push(p));
            assert(src@ == src0.remove(m as int));
            assert(p == src0[m as int]);
            src0.to_multiset_ensures();
            out0.to_multiset_ensures();
            assert(src0.remove(m as int).to_multiset() =~= src0.to_multiset().remove(p));
            assert(out0.push(p).to_multiset() =~= out0.to_multiset().insert(p));
            assert(src0.contains(p));
            assert(src0.to_multiset().count(p) > 0);
            assert(out@.to_multiset().add(src@.to_multiset()) =~= h.entries@.to_multiset());
            assert(forall|b: int|
                0 <= b < src@.len() ==> src0.contains(#[trigger] src@[b]) && p.1 <= src@[b].1);
            assert(sorted_by_count(out@));
        }
    }
    proof {
        assert(src@.to_multiset() =~= Multiset::<(String, u64)>::empty());
        assert(out@.to_multiset() =~= h.entries@.to_multiset());
        assert forall|i2: int| 0 <= i2 < out@.len() implies h@.contains_key(
            #[trigger] out@[i2].0@,
        ) && h@[out@[i2].0@] == out@[i2].1 as nat by {
            assert(out@.contains(out@[i2]));
            assert(out@.to_multiset().count(out@[i2]) > 0);
            assert(h.entries@.contains(out@[i2]));
            let j = choose|j: int| 0 <= j < h.entries@.len() && h.entries@[j] == out@[i2];
            lemma_hist_map_found(h.entries@, j);
        }
        assert forall|key: Seq<char>| h@.contains_key(key) implies exists|i2: int|
            0 <= i2 < out@.len() && #[trigger] out@[i2].0@ == key by {
            lemma_hist_map_dom(h.entries@, key);
            let j = choose|j: int| 0 <= j < h.entries@.len() && h.entries@[j].0@ == key;
            assert(h.entries@.contains(h.entries@[j]));
            assert(h.entries@.to_multiset().count(h.entries@[j]) > 0);
            assert(out@.contains(h.entries@[j]));
            let i2 = choose|i2: int| 0 <= i2 < out@.len() && out@[i2] == h.entries@[j];
            assert(out@[i2].0@ == key);
        }
        assert(h.entries@.no_duplicates());
        h.entries@.lemma_multiset_has_no_duplicates();
        out@.lemma_multiset_has_no_duplicates_conv();
        assert forall|i2: int, j2: int| 0 <= i2 < j2 < out@.len() implies out@[i2].0@
            != out@[j2].0@ by {
            if out@[i2].0@ == out@[j2].0@ {
                assert(out@[i2] != out@[j2]);
                assert(out@.contains(out@[i2]));
                assert(out@.to_multiset().count(out@[i2]) > 0);
                assert(h.entries@.contains(out@[i2]));
                assert(out@.contains(out@[j2]));
                assert(out@.to_multiset().count(out@[j2]) > 0);
                assert(h.entries@.contains(out@[j2]));
                let a = choose|a: int| 0 <= a < h.entries@.len() && h.entries@[a] == out@[i2];
                let b = choose|b: int| 0 <= b < h.entries@.len() && h.entries@[b] == out@[j2];
                assert(a != b);
                assert(h.entries@[a].0@ == h.entries@[b].0@);
                assert(false);
            }
        }
    }
    out
}

/// The digit character of a value below ten.
pub open spec fn decimal_digit(d: nat) -> char {
    if d == 0 {
        '0'
    } else if d == 1 {
        '1'
    } else if d == 2 {
        '2'
    } else if d == 3 {
        '3'
    } else if d == 4 {
        '4'
    } else if d == 5 {
        '5'
    } else if d == 6 {
        '6'
    } else if d == 7 {
        '7'
    } else if d == 8 {
        '8'
    } else {
        '9'
    }
}

/// The decimal rendering of a count, most significant digit first, with no
/// leading zeros (zero itself is `"0"`).
pub open spec fn decimal_of(n: nat) -> Seq<char>
    decreases n,
{
    if n < 10 {
        seq![decimal_digit(n)]
    } else {
        decimal_of(n / 10).push(decimal_digit(n % 10))
    }
}

fn digit_str(d: u64) -> (r: &'static str)
    requires
        d < 10,
    ensures
        r@ =~= seq![decimal_digit(d as nat)],
{
    proof {
        reveal_strlit("0");
        reveal_strlit("1");
        reveal_strlit("2");
        reveal_strlit("3");
        reveal_strlit("4");
        reveal_strlit("5");
        reveal_strlit("6");
        reveal_strlit("7");
        reveal_strlit("8");
        reveal_strlit("9");
    }
    if d == 0 {
        "0"
    } else if d == 1 {
        "1"
    } else if d == 2 {
        "2"
    } else if d == 3 {
        "3"
    } else if d == 4 {
        "4"
    } else if d == 5 {
        "5"
    } else if d == 6 {
        "6"
    } else if d == 7 {
        "7"
    } else if d == 8 {
        "8"
    } else {
        "9"
    }
}

/// Render a count in decimal.
pub fn u64_to_string(n: u64) -> (r: String)
    ensures
        r@ == decimal_of(n as nat),
    decreases n,
{
    if n < 10 {
        digit_str(n).to_owned()
    } else {
        let mut s = u64_to_string(n / 10);
        s.append(digit_str(n % 10));
        proof {
            assert(s@ =~= decimal_of((n / 10) as nat).push(decimal_digit((n % 10) as nat)));
        }
        s
    }
}

/// Render one histogram entry as `character: count`.
pub fn render_line(ch: &str, count: u64) -> (r: String)
    ensures
        r@ == ch@ + ": "@ + decimal_of(count as nat),
{
    let mut s = ch.to_owned();
    s.append(": ");
    let d = u64_to_string(count);
    s.append(d.as_str());
    proof {
        assert(s@ =~= ch@ + ": "@ + decimal_of(count as nat));
    }
    s
}

/// Render every entry, in the order given, as a `character: count` line.
pub fn report_lines(pairs: &Vec<(String, u64)>) -> (r: Vec<String>)
    ensures
        r@.len() == pairs@.len(),
        forall|i: int|
            0 <= i < r@.len() ==> r.deep_view()[i] == pairs@[i].0@ + ": "@ + decimal_of(
                pairs@[i].1 as nat,
            ),
{
    let mut r: Vec<String> = Vec::new();
    let n = pairs.len();
    let mut i: usize = 0;
    while i < n
        invariant
            n == pairs@.len(),
            i <= n,
            r@.len() == i,
            forall|j: int|
                0 <= j < i ==> r.deep_view()[j] == pairs@[j].0@ + ": "@ + decimal_of(
                    pairs@[j].1 as nat,
                ),
        decreases n - i,
    {
        let line = render_line(pairs[i].0.as_str(), pairs[i].1);
        let ghost dv0 = r.deep_view();
        r.push(line);
        proof {
            assert(r.deep_view() =~= dv0.push(line@));
        }
        i += 1;
    }
    r
}

} // verus!
