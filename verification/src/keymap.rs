//! The keymap table: a mapping from textual keycodes to base key symbols,
//! built once per run from the line-oriented output of the host's keymap
//! query and read-only afterward.

use vstd::prelude::*;
use crate::text::{
    lines_of, left_part, right_part, split_eq_sep, split_lines, splits_in_two, str_eq, tokenize,
    tokens_of,
};

verus! {

/// The keycode/symbol pair a keymap line contributes, if any. A line counts
/// only if it splits on `" = "` into exactly two parts, its left part has a
/// second whitespace-delimited token (the keycode), and its right part has a
/// first one (the symbol).
pub open spec fn keymap_entry(line: Seq<char>) -> Option<(Seq<char>, Seq<char>)> {
    if splits_in_two(line) && tokens_of(left_part(line)).len() >= 2 && tokens_of(
        right_part(line),
    ).len() >= 1 {
        Some((tokens_of(left_part(line))[1], tokens_of(right_part(line))[0]))
    } else {
        None
    }
}

/// The mapping that a sequence of keymap lines defines; a later line with
/// the same keycode overrides an earlier one.
pub open spec fn keymap_of_lines(lines: Seq<Seq<char>>) -> Map<Seq<char>, Seq<char>>
    decreases lines.len(),
{
    if lines.len() == 0 {
        Map::empty()
    } else {
        let m = keymap_of_lines(lines.drop_last());
        match keymap_entry(lines.last()) {
            Some(kv) => m.insert(kv.0, kv.1),
            None => m,
        }
    }
}

/// The mapping that a whole keymap query output defines.
pub open spec fn keymap_spec(output: Seq<char>) -> Map<Seq<char>, Seq<char>> {
    keymap_of_lines(lines_of(output))
}

/// The mapping that a sequence of keycode/symbol insertions defines.
pub open spec fn map_of_pairs(es: Seq<(String, String)>) -> Map<Seq<char>, Seq<char>>
    decreases es.len(),
{
    if es.len() == 0 {
        Map::empty()
    } else {
        map_of_pairs(es.drop_last()).insert(es.last().0@, es.last().1@)
    }
}

proof fn lemma_map_of_pairs_absent(es: Seq<(String, String)>, key: Seq<char>)
    requires
        forall|j: int| 0 <= j < es.len() ==> es[j].0@ != key,
    ensures
        !map_of_pairs(es).contains_key(key),
    decreases es.len(),
{
    if es.len() > 0 {
        lemma_map_of_pairs_absent(es.drop_last(), key);
    }
}

proof fn lemma_map_of_pairs_found(es: Seq<(String, String)>, i: int)
    requires
        0 <= i < es.len(),
        forall|j: int| i < j < es.len() ==> es[j].0@ != es[i].0@,
    ensures
        map_of_pairs(es).contains_key(es[i].0@),
        map_of_pairs(es)[es[i].0@] == es[i].1@,
    decreases es.len(),
{
    if i == es.len() - 1 {
    } else {
        lemma_map_of_pairs_found(es.drop_last(), i);
    }
}

/// The table from keycode to base key symbol, shared read-only across all
/// file translations.
pub struct KeymapTable {
    pub entries: Vec<(String, String)>,
}

impl View for KeymapTable {
    type V = Map<Seq<char>, Seq<char>>;

    open spec fn view(&self) -> Map<Seq<char>, Seq<char>> {
        map_of_pairs(self.entries@)
    }
}

impl KeymapTable {
    /// An empty table.
    pub fn new() -> (r: KeymapTable)
        ensures
            r@ == Map::<Seq<char>, Seq<char>>::empty(),
    {
        KeymapTable { entries: Vec::new() }
    }

    /// Bind `keycode` to `symbol`, overriding any earlier binding.
    pub fn insert(&mut self, keycode: String, symbol: String)
        ensures
            final(self)@ == old(self)@.insert(keycode@, symbol@),
    {
        let ghost k = keycode@;
        let ghost v = symbol@;
        let ghost before = self.entries@;
        self.entries.push((keycode, symbol));
        proof {
            assert(self.entries@.drop_last() =~= before);
            assert(self.entries@.last().0@ == k);
            assert(self.entries@.last().1@ == v);
        }
    }

    /// The symbol bound to `keycode`, if any.
    pub fn lookup(&self, keycode: &str) -> (r: Option<&String>)
        ensures
            match r {
                Some(sym) => self@.contains_key(keycode@) && sym@ == self@[keycode@],
                None => !self@.contains_key(keycode@),
            },
    {
        let mut i = self.entries.len();
        while i > 0
            invariant
                i <= self.entries.len(),
                forall|j: int| i <= j < self.entries@.len() ==> self.entries@[j].0@ != keycode@,
            decreases i,
        {
            i -= 1;
            if str_eq(self.entries[i].0.as_str(), keycode) {
                proof {
                    lemma_map_of_pairs_found(self.entries@, i as int);
                }
                return Some(&self.entries[i].1);
            }
        }
        proof {
            lemma_map_of_pairs_absent(self.entries@, keycode@);
        }
        None
    }
}

/// Parse the whole output of the keymap query into a table: each line that
/// matches the `<index-tokens> = <symbol> <aliases...>` shape binds its
/// keycode (second token of the left part) to its symbol (first token of the
/// right part); every other line is ignored.
pub fn parse_keymap(output: &str) -> (r: KeymapTable)
    ensures
        r@ == keymap_spec(output@),
{
    let lines = split_lines(output);
    let mut km = KeymapTable::new();
    let mut idx: usize = 0;
    proof {
        assert(lines.deep_view().take(0) =~= Seq::<Seq<char>>::empty());
    }
    while idx < lines.len()
        invariant
            lines.deep_view() == lines_of(output@),
            idx <= lines.len(),
            lines.deep_view().len() == lines@.len(),
            km@ == keymap_of_lines(lines.deep_view().take(idx as int)),
        decreases lines.len() - idx,
    {
        let ghost dv = lines.deep_view();
        let line: &String = &lines[idx];
        proof {
            assert(dv[idx as int] == line@);
        }
        match split_eq_sep(line.as_str()) {
            Some(parts) => {
                let lt = tokenize(parts.0.as_str());
                let rt = tokenize(parts.1.as_str());
                if lt.len() >= 2 && rt.len() >= 1 {
                    proof {
                        assert(lt.deep_view()[1] == lt@[1]@);
                        assert(rt.deep_view()[0] == rt@[0]@);
                        assert(keymap_entry(line@) == Some(
                            (lt@[1]@, rt@[0]@),
                        ));
                    }
                    let keycode = lt[1].clone();
                    let symbol = rt[0].clone();
                    km.insert(keycode, symbol);
                } else {
                    proof {
                        assert(keymap_entry(line@) is None);
                    }
                }
            },
            None => {
                proof {
                    assert(keymap_entry(line@) is None);
                }
            },
        }
        proof {
            assert(dv.take(idx as int + 1).drop_last() =~= dv.take(idx as int));
            assert(dv.take(idx as int + 1).last() == dv[idx as int]);
        }
        idx += 1;
    }
    proof {
        assert(lines.deep_view().take(lines@.len() as int) =~= lines.deep_view());
    }
    km
}

} // verus!
