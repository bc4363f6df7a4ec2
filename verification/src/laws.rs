//! Laws of the translation pipeline, stated over the specification functions
//! that the executable functions' contracts use.

use vstd::prelude::*;
use crate::histogram::{hist_fold, lemma_hist_fold_count, lemma_occurrences_exists};
use crate::translator::{
    is_event_line, is_modifier_sym, line_action, line_emits, line_errs, line_keycode,
    line_next_state, resolve_sym, run_from, shifted_sym, unshifted_sym, ModifierState,
};

verus! {

proof fn lemma_inert_line(
    km: Map<Seq<char>, Seq<char>>,
    st: ModifierState,
    lines: Seq<Seq<char>>,
    i: int,
)
    requires
        0 <= i < lines.len(),
        !(is_event_line(lines[i]) && km.contains_key(line_keycode(lines[i]))),
    ensures
        run_from(km, st, lines) == run_from(km, st, lines.remove(i)),
    decreases lines.len(),
{
    if i == 0 {
        assert(!line_errs(km, lines[0]));
        assert(line_emits(km, st, lines[0]) is None);
        assert(line_next_state(km, st, lines[0]) == st);
        assert(lines.remove(0) =~= lines.drop_first());
    } else {
        let rest = lines.drop_first();
        let st2 = line_next_state(km, st, lines[0]);
        assert(rest[i - 1] == lines[i]);
        lemma_inert_line(km, st2, rest, i - 1);
        assert(lines.remove(i).drop_first() =~= rest.remove(i - 1));
        assert(lines.remove(i)[0] == lines[0]);
        assert(lines.remove(i).len() > 0);
    }
}

/// A keycode absent from the keymap table contributes nothing: the run over
/// the lines equals the run with that event line removed, whatever the
/// modifier state.
pub proof fn lemma_unknown_keycode_skipped(
    km: Map<Seq<char>, Seq<char>>,
    st: ModifierState,
    lines: Seq<Seq<char>>,
    i: int,
)
    requires
        0 <= i < lines.len(),
        is_event_line(lines[i]),
        !km.contains_key(line_keycode(lines[i])),
    ensures
        run_from(km, st, lines) == run_from(km, st, lines.remove(i)),
{
    lemma_inert_line(km, st, lines, i);
}

/// A line that does not split into exactly two tokens contributes nothing:
/// the run over the lines equals the run with that line removed.
pub proof fn lemma_malformed_line_skipped(
    km: Map<Seq<char>, Seq<char>>,
    st: ModifierState,
    lines: Seq<Seq<char>>,
    i: int,
)
    requires
        0 <= i < lines.len(),
        !is_event_line(lines[i]),
    ensures
        run_from(km, st, lines) == run_from(km, st, lines.remove(i)),
{
    lemma_inert_line(km, st, lines, i);
}

/// A recognized non-modifier key resolves through the shift table while
/// either Shift is held and through the unshifted table otherwise; each
/// table passes a symbol absent from it through unchanged.
pub proof fn lemma_shift_resolution(
    km: Map<Seq<char>, Seq<char>>,
    st: ModifierState,
    line: Seq<char>,
)
    requires
        is_event_line(line),
        km.contains_key(line_keycode(line)),
        !is_modifier_sym(km[line_keycode(line)]),
    ensures
        st.shift_held() ==> line_emits(km, st, line) == Some(shifted_sym(km[line_keycode(line)])),
        !st.shift_held() ==> line_emits(km, st, line) == Some(
            unshifted_sym(km[line_keycode(line)]),
        ),
{
}

/// A modifier key's press or release emits no character itself.
pub proof fn lemma_modifier_line_emits_nothing(
    km: Map<Seq<char>, Seq<char>>,
    st: ModifierState,
    line: Seq<char>,
)
    requires
        is_event_line(line),
        km.contains_key(line_keycode(line)),
        is_modifier_sym(km[line_keycode(line)]),
    ensures
        line_emits(km, st, line) is None,
{
}

proof fn lemma_resolve_not_modifier(s: Seq<char>, shift: bool)
    requires
        !is_modifier_sym(s),
    ensures
        !is_modifier_sym(resolve_sym(s, shift)),
{
    broadcast use vstd::string::group_string_axioms;

    reveal_strlit("Shift_L");
    reveal_strlit("Shift_R");
    reveal_strlit("Control_L");
    reveal_strlit("Control_R");
    reveal_strlit("Alt_L");
    reveal_strlit("Alt_R");
    reveal_strlit("!");
    reveal_strlit("@");
    reveal_strlit("#");
    reveal_strlit("$");
    reveal_strlit("%");
    reveal_strlit("^");
    reveal_strlit("&");
    reveal_strlit("*");
    reveal_strlit("(");
    reveal_strlit(")");
    reveal_strlit("_");
    reveal_strlit("+");
    reveal_strlit("{");
    reveal_strlit("}");
    reveal_strlit(":");
    reveal_strlit("\"");
    reveal_strlit("|");
    reveal_strlit("<");
    reveal_strlit(">");
    reveal_strlit("?");
    reveal_strlit("~");
    reveal_strlit("-");
    reveal_strlit("=");
    reveal_strlit("]");
    reveal_strlit("[");
    reveal_strlit(";");
    reveal_strlit("'");
    reveal_strlit("\\");
    reveal_strlit(",");
    reveal_strlit(".");
    reveal_strlit("/");
    reveal_strlit("`");
    assert("Shift_L"@.len() == 7);
    assert("Shift_R"@.len() == 7);
    assert("Control_L"@.len() == 9);
    assert("Control_R"@.len() == 9);
    assert("Alt_L"@.len() == 5);
    assert("Alt_R"@.len() == 5);
    assert("!"@.len() == 1);
    assert("@"@.len() == 1);
    assert("#"@.len() == 1);
    assert("$"@.len() == 1);
    assert("%"@.len() == 1);
    assert("^"@.len() == 1);
    assert("&"@.len() == 1);
    assert("*"@.len() == 1);
    assert("("@.len() == 1);
    assert(")"@.len() == 1);
    assert("_"@.len() == 1);
    assert("+"@.len() == 1);
    assert("{"@.len() == 1);
    assert("}"@.len() == 1);
    assert(":"@.len() == 1);
    assert("\""@.len() == 1);
    assert("|"@.len() == 1);
    assert("<"@.len() == 1);
    assert(">"@.len() == 1);
    assert("?"@.len() == 1);
    assert("~"@.len() == 1);
    assert("-"@.len() == 1);
    assert("="@.len() == 1);
    assert("]"@.len() == 1);
    assert("["@.len() == 1);
    assert(";"@.len() == 1);
    assert("'"@.len() == 1);
    assert("\\"@.len() == 1);
    assert(","@.len() == 1);
    assert("."@.len() == 1);
    assert("/"@.len() == 1);
    assert("`"@.len() == 1);
}

proof fn lemma_run_no_modifier(
    km: Map<Seq<char>, Seq<char>>,
    st: ModifierState,
    lines: Seq<Seq<char>>,
    cs: Seq<Seq<char>>,
)
    requires
        run_from(km, st, lines) == Ok::<Seq<Seq<char>>, Seq<char>>(cs),
    ensures
        forall|i: int| 0 <= i < cs.len() ==> !is_modifier_sym(#[trigger] cs[i]),
    decreases lines.len(),
{
    if lines.len() > 0 && !line_errs(km, lines[0]) {
        let st2 = line_next_state(km, st, lines[0]);
        match run_from(km, st2, lines.drop_first()) {
            Ok(rest) => {
                lemma_run_no_modifier(km, st2, lines.drop_first(), rest);
                match line_emits(km, st, lines[0]) {
                    Some(c) => {
                        lemma_resolve_not_modifier(km[line_keycode(lines[0])], st.shift_held());
                        assert(cs == seq![c] + rest);
                        assert forall|i: int| 0 <= i < cs.len() implies !is_modifier_sym(
                            #[trigger] cs[i],
                        ) by {
                            if i > 0 {
                                assert(cs[i] == rest[i - 1]);
                            } else {
                                assert(cs[0] == c);
                            }
                        }
                    },
                    None => {
                        assert(cs == rest);
                    },
                }
            },
            Err(_) => {},
        }
    }
}

/// Modifier press and release events never appear as histogram entries: the
/// histogram of any successful run holds no modifier name as a key.
pub proof fn lemma_no_modifier_entries(
    km: Map<Seq<char>, Seq<char>>,
    st: ModifierState,
    lines: Seq<Seq<char>>,
    cs: Seq<Seq<char>>,
    key: Seq<char>,
)
    requires
        run_from(km, st, lines) == Ok::<Seq<Seq<char>>, Seq<char>>(cs),
        hist_fold(cs).contains_key(key),
    ensures
        !is_modifier_sym(key),
{
    lemma_hist_fold_count(cs, key);
    lemma_occurrences_exists(cs, key);
    lemma_run_no_modifier(km, st, lines, cs);
    let i = choose|i: int| 0 <= i < cs.len() && cs[i] == key;
    assert(!is_modifier_sym(cs[i]));
}

/// An unrecognized action token always aborts the run, and nothing else
/// does: the run errs exactly when some line holds a recognized modifier key
/// with an action that is neither press nor release, however many valid
/// events precede it and whatever the modifier state.
pub proof fn lemma_bad_action_aborts(
    km: Map<Seq<char>, Seq<char>>,
    st: ModifierState,
    lines: Seq<Seq<char>>,
)
    ensures
        (run_from(km, st, lines) is Err) <==> exists|i: int|
            0 <= i < lines.len() && line_errs(km, #[trigger] lines[i]),
    decreases lines.len(),
{
    if lines.len() == 0 {
    } else if line_errs(km, lines[0]) {
        assert(line_errs(km, lines[0]));
    } else {
        let rest = lines.drop_first();
        let st2 = line_next_state(km, st, lines[0]);
        lemma_bad_action_aborts(km, st2, rest);
        if run_from(km, st, lines) is Err {
            let i = choose|i: int| 0 <= i < rest.len() && line_errs(km, #[trigger] rest[i]);
            assert(lines[i + 1] == rest[i]);
            assert(line_errs(km, lines[i + 1]));
        }
        if exists|i: int| 0 <= i < lines.len() && line_errs(km, #[trigger] lines[i]) {
            let i = choose|i: int| 0 <= i < lines.len() && line_errs(km, #[trigger] lines[i]);
            assert(i != 0);
            assert(rest[i - 1] == lines[i]);
            assert(line_errs(km, rest[i - 1]));
        }
    }
}

} // verus!
