//! The event translator: consumes one file's raw event lines plus the shared
//! keymap table, tracks which modifier keys are held, and yields the resolved
//! character of every qualifying event.

use vstd::prelude::*;
use vstd::string::StringExecFns;
use crate::keymap::KeymapTable;
use crate::text::{lines_of, split_lines, str_eq, tokenize, tokens_of};

verus! {

/// The held/released flag of each of the six tracked modifier keys. Owned by
/// one file translation; all flags start false; only the Shift pair affects
/// output.
#[derive(PartialEq, Eq, Structural, Clone, Copy, Debug)]
pub struct ModifierState {
    pub shift_l: bool,
    pub shift_r: bool,
    pub control_l: bool,
    pub control_r: bool,
    pub alt_l: bool,
    pub alt_r: bool,
}

impl ModifierState {
    /// The state at the start of a file: nothing held.
    pub open spec fn spec_init() -> ModifierState {
        ModifierState {
            shift_l: false,
            shift_r: false,
            control_l: false,
            control_r: false,
            alt_l: false,
            alt_r: false,
        }
    }

    pub fn init() -> (r: ModifierState)
        ensures
            r == ModifierState::spec_init(),
    {
        ModifierState {
            shift_l: false,
            shift_r: false,
            control_l: false,
            control_r: false,
            alt_l: false,
            alt_r: false,
        }
    }

    /// Either Shift key is currently held.
    pub open spec fn shift_held(self) -> bool {
        self.shift_l || self.shift_r
    }
}

/// The symbol is one of the six tracked modifier names.
pub open spec fn is_modifier_sym(s: Seq<char>) -> bool {
    ||| s == "Shift_L"@
    ||| s == "Shift_R"@
    ||| s == "Control_L"@
    ||| s == "Control_R"@
    ||| s == "Alt_L"@
    ||| s == "Alt_R"@
}

/// The state after setting the named modifier's flag to `held`.
pub open spec fn spec_set_modifier(st: ModifierState, sym: Seq<char>, held: bool) -> ModifierState {
    if sym == "Shift_L"@ {
        ModifierState { shift_l: held, ..st }
    } else if sym == "Shift_R"@ {
        ModifierState { shift_r: held, ..st }
    } else if sym == "Control_L"@ {
        ModifierState { control_l: held, ..st }
    } else if sym == "Control_R"@ {
        ModifierState { control_r: held, ..st }
    } else if sym == "Alt_L"@ {
        ModifierState { alt_l: held, ..st }
    } else if sym == "Alt_R"@ {
        ModifierState { alt_r: held, ..st }
    } else {
        st
    }
}

/// The character a symbol yields while Shift is held: the fixed shifted
/// punctuation/digit table, or the symbol itself when absent from it.
pub open spec fn shifted_sym(s: Seq<char>) -> Seq<char> {
    if s == "1"@ {
        "!"@
    } else if s == "2"@ {
        "@"@
    } else if s == "3"@ {
        "#"@
    } else if s == "4"@ {
        "$"@
    } else if s == "5"@ {
        "%"@
    } else if s == "6"@ {
        "^"@
    } else if s == "7"@ {
        "&"@
    } else if s == "8"@ {
        "*"@
    } else if s == "9"@ {
        "("@
    } else if s == "0"@ {
        ")"@
    } else if s == "minus"@ {
        "_"@
    } else if s == "equal"@ {
        "+"@
    } else if s == "bracketright"@ {
        "{"@
    } else if s == "bracketleft"@ {
        "}"@
    } else if s == "semicolon"@ {
        ":"@
    } else if s == "apostrophe"@ {
        "\""@
    } else if s == "backslash"@ {
        "|"@
    } else if s == "comma"@ {
        "<"@
    } else if s == "period"@ {
        ">"@
    } else if s == "slash"@ {
        "?"@
    } else if s == "grave"@ {
        "~"@
    } else {
        s
    }
}

/// The character a symbol yields while Shift is not held: the fixed
/// unshifted punctuation table, or the symbol itself when absent from it.
pub open spec fn unshifted_sym(s: Seq<char>) -> Seq<char> {
    if s == "minus"@ {
        "-"@
    } else if s == "equal"@ {
        "="@
    } else if s == "bracketright"@ {
        "]"@
    } else if s == "bracketleft"@ {
        "["@
    } else if s == "semicolon"@ {
        ";"@
    } else if s == "apostrophe"@ {
        "'"@
    } else if s == "backslash"@ {
        "\\"@
    } else if s == "comma"@ {
        ","@
    } else if s == "period"@ {
        "."@
    } else if s == "slash"@ {
        "/"@
    } else if s == "grave"@ {
        "`"@
    } else {
        s
    }
}

/// The character a non-modifier symbol resolves to under the given Shift
/// state.
pub open spec fn resolve_sym(s: Seq<char>, shift: bool) -> Seq<char> {
    if shift {
        shifted_sym(s)
    } else {
        unshifted_sym(s)
    }
}

/// The press action token.
pub open spec fn is_press(a: Seq<char>) -> bool {
    a == "(KeyPress)"@
}

/// The release action token.
pub open spec fn is_release(a: Seq<char>) -> bool {
    a == "(KeyRelease)"@
}

/// The line splits into exactly two whitespace-separated tokens.
pub open spec fn is_event_line(line: Seq<char>) -> bool {
    tokens_of(line).len() == 2
}

/// The keycode token of an event line.
pub open spec fn line_keycode(line: Seq<char>) -> Seq<char> {
    tokens_of(line)[0]
}

/// The action token of an event line.
pub open spec fn line_action(line: Seq<char>) -> Seq<char> {
    tokens_of(line)[1]
}

/// The line aborts the run: a recognized modifier key with an action token
/// that is neither press nor release.
pub open spec fn line_errs(km: Map<Seq<char>, Seq<char>>, line: Seq<char>) -> bool {
    &&& is_event_line(line)
    &&& km.contains_key(line_keycode(line))
    &&& is_modifier_sym(km[line_keycode(line)])
    &&& !is_press(line_action(line))
    &&& !is_release(line_action(line))
}

/// The character the line emits, if any: a well-formed event line whose
/// keycode maps to a non-modifier symbol emits that symbol resolved under
/// the current Shift state, on press and on release alike.
pub open spec fn line_emits(km: Map<Seq<char>, Seq<char>>, st: ModifierState, line: Seq<char>) -> Option<
    Seq<char>,
> {
    if is_event_line(line) && km.contains_key(line_keycode(line)) && !is_modifier_sym(
        km[line_keycode(line)],
    ) {
        Some(resolve_sym(km[line_keycode(line)], st.shift_held()))
    } else {
        None
    }
}

/// The modifier state after the line: a modifier key's flag is set on press
/// and cleared on release; every other line leaves the state unchanged.
pub open spec fn line_next_state(
    km: Map<Seq<char>, Seq<char>>,
    st: ModifierState,
    line: Seq<char>,
) -> ModifierState {
    if is_event_line(line) && km.contains_key(line_keycode(line)) && is_modifier_sym(
        km[line_keycode(line)],
    ) {
        if is_press(line_action(line)) {
            spec_set_modifier(st, km[line_keycode(line)], true)
        } else if is_release(line_action(line)) {
            spec_set_modifier(st, km[line_keycode(line)], false)
        } else {
            st
        }
    } else {
        st
    }
}

/// The characters the given lines emit, scanned in order from state `st`,
/// or the action token of the first aborting line.
pub open spec fn run_from(
    km: Map<Seq<char>, Seq<char>>,
    st: ModifierState,
    lines: Seq<Seq<char>>,
) -> Result<Seq<Seq<char>>, Seq<char>>
    decreases lines.len(),
{
    if lines.len() == 0 {
        Ok(Seq::empty())
    } else {
        let line = lines[0];
        if line_errs(km, line) {
            Err(line_action(line))
        } else {
            match run_from(km, line_next_state(km, st, line), lines.drop_first()) {
                Ok(rest) => Ok(
                    match line_emits(km, st, line) {
                        Some(c) => seq![c] + rest,
                        None => rest,
                    },
                ),
                Err(t) => Err(t),
            }
        }
    }
}

/// The characters one file's content emits, from the all-released state, or
/// the action token of the first aborting line.
pub open spec fn translate_spec(km: Map<Seq<char>, Seq<char>>, content: Seq<char>) -> Result<
    Seq<Seq<char>>,
    Seq<char>,
> {
    run_from(km, ModifierState::spec_init(), lines_of(content))
}

/// The fatal error of the translator: an action token that is neither
/// `(KeyPress)` nor `(KeyRelease)` on a recognized modifier key.
#[derive(Debug)]
pub struct TranslateError {
    pub action: String,
}

impl TranslateError {
    /// A human-readable description naming the offending token.
    pub fn message(&self) -> (r: String)
        ensures
            r@ == "Unknown action `"@ + self.action@ + "`"@,
    {
        let mut m = String::new();
        m.append("Unknown action `");
        m.append(self.action.as_str());
        m.append("`");
        proof {
            assert(m@ =~= "Unknown action `"@ + self.action@ + "`"@);
        }
        m
    }
}

fn is_modifier(sym: &str) -> (r: bool)
    ensures
        r == is_modifier_sym(sym@),
{
    str_eq(sym, "Shift_L") || str_eq(sym, "Shift_R") || str_eq(sym, "Control_L") || str_eq(
        sym,
        "Control_R",
    ) || str_eq(sym, "Alt_L") || str_eq(sym, "Alt_R")
}

fn set_modifier(st: ModifierState, sym: &str, held: bool) -> (r: ModifierState)
    ensures
        r == spec_set_modifier(st, sym@, held),
{
    if str_eq(sym, "Shift_L") {
        ModifierState { shift_l: held, ..st }
    } else if str_eq(sym, "Shift_R") {
        ModifierState { shift_r: held, ..st }
    } else if str_eq(sym, "Control_L") {
        ModifierState { control_l: held, ..st }
    } else if str_eq(sym, "Control_R") {
        ModifierState { control_r: held, ..st }
    } else if str_eq(sym, "Alt_L") {
        ModifierState { alt_l: held, ..st }
    } else if str_eq(sym, "Alt_R") {
        ModifierState { alt_r: held, ..st }
    } else {
        st
    }
}

/// Resolve a non-modifier symbol to the character it yields under the given
/// Shift state.
pub fn resolve_symbol(sym: &str, shift: bool) -> (r: String)
    ensures
        r@ == resolve_sym(sym@, shift),
{
    if shift {
        if str_eq(sym, "1") {
            String::from_str("!")
        } else if str_eq(sym, "2") {
            String::from_str("@")
        } else if str_eq(sym, "3") {
            String::from_str("#")
        } else if str_eq(sym, "4") {
            String::from_str("$")
        } else if str_eq(sym, "5") {
            String::from_str("%")
        } else if str_eq(sym, "6") {
            String::from_str("^")
        } else if str_eq(sym, "7") {
            String::from_str("&")
        } else if str_eq(sym, "8") {
            String::from_str("*")
        } else if str_eq(sym, "9") {
            String::from_str("(")
        } else if str_eq(sym, "0") {
            String::from_str(")")
        } else if str_eq(sym, "minus") {
            String::from_str("_")
        } else if str_eq(sym, "equal") {
            String::from_str("+")
        } else if str_eq(sym, "bracketright") {
            String::from_str("{")
        } else if str_eq(sym, "bracketleft") {
            String::from_str("}")
        } else if str_eq(sym, "semicolon") {
            String::from_str(":")
        } else if str_eq(sym, "apostrophe") {
            String::from_str("\"")
        } else if str_eq(sym, "backslash") {
            String::from_str("|")
        } else if str_eq(sym, "comma") {
            String::from_str("<")
        } else if str_eq(sym, "period") {
            String::from_str(">")
        } else if str_eq(sym, "slash") {
            String::from_str("?")
        } else if str_eq(sym, "grave") {
            String::from_str("~")
        } else {
            sym.to_owned()
        }
    } else {
        if str_eq(sym, "minus") {
            String::from_str("-")
        } else if str_eq(sym, "equal") {
            String::from_str("=")
        } else if str_eq(sym, "bracketright") {
            String::from_str("]")
        } else if str_eq(sym, "bracketleft") {
            String::from_str("[")
        } else if str_eq(sym, "semicolon") {
            String::from_str(";")
        } else if str_eq(sym, "apostrophe") {
            String::from_str("'")
        } else if str_eq(sym, "backslash") {
            String::from_str("\\")
        } else if str_eq(sym, "comma") {
            String::from_str(",")
        } else if str_eq(sym, "period") {
            String::from_str(".")
        } else if str_eq(sym, "slash") {
            String::from_str("/")
        } else if str_eq(sym, "grave") {
            String::from_str("`")
        } else {
            sym.to_owned()
        }
    }
}

/// Translate one file's content into the sequence of resolved characters it
/// emits, or fail on the first unrecognized action token on a modifier key.
pub fn translate_content(content: &str, km: &KeymapTable) -> (r: Result<Vec<String>, TranslateError>)
    ensures
        match r {
            Ok(chars) => translate_spec(km@, content@) == Ok::<Seq<Seq<char>>, Seq<char>>(
                chars.deep_view(),
            ),
            Err(e) => translate_spec(km@, content@) == Err::<Seq<Seq<char>>, Seq<char>>(e.action@),
        },
{
    let lines = split_lines(content);
    let ghost dv = lines.deep_view();
    let mut st = ModifierState::init();
    let mut out: Vec<String> = Vec::new();
    let mut idx: usize = 0;
    proof {
        assert(dv.skip(0) =~= dv);
    }
    while idx < lines.len()
        invariant
            lines.deep_view() == dv,
            dv == lines_of(content@),
            dv.len() == lines@.len(),
            idx <= lines.len(),
            translate_spec(km@, content@) == match run_from(km@, st, dv.skip(idx as int)) {
                Ok(rest) => Ok::<Seq<Seq<char>>, Seq<char>>(out.deep_view() + rest),
                Err(t) => Err::<Seq<Seq<char>>, Seq<char>>(t),
            },
        decreases lines.len() - idx,
    {
        let ghost suffix = dv.skip(idx as int);
        let ghost st0 = st;
        let ghost out0 = out.deep_view();
        proof {
            assert(suffix.len() > 0);
            assert(suffix[0] == dv[idx as int]);
            assert(suffix.drop_first() =~= dv.skip(idx as int + 1));
        }
        let line: &String = &lines[idx];
        proof {
            assert(dv[idx as int] == line@);
        }
        let toks = tokenize(line.as_str());
        proof {
            assert(toks.deep_view().len() == toks@.len());
        }
        if toks.len() == 2 {
            proof {
                assert(toks.deep_view()[0] == toks@[0]@);
                assert(toks.deep_view()[1] == toks@[1]@);
                assert(line_keycode(line@) == toks@[0]@);
                assert(line_action(line@) == toks@[1]@);
            }
            match km.lookup(toks[0].as_str()) {
                None => {
                    proof {
                        assert(line_emits(km@, st0, line@) is None);
                        assert(!line_errs(km@, line@));
                        assert(line_next_state(km@, st0, line@) == st0);
                    }
                },
                Some(sym_ref) => {
                    let sym = sym_ref.clone();
                    proof {
                        assert(sym@ == km@[line_keycode(line@)]);
                    }
                    if is_modifier(sym.as_str()) {
                        let action = &toks[1];
                        if str_eq(action.as_str(), "(KeyPress)") {
                            st = set_modifier(st, sym.as_str(), true);
                        } else if str_eq(action.as_str(), "(KeyRelease)") {
                            st = set_modifier(st, sym.as_str(), false);
                        } else {
                            proof {
                                assert(line_errs(km@, line@));
                            }
                            return Err(TranslateError { action: action.clone() });
                        }
                        proof {
                            assert(line_emits(km@, st0, line@) is None);
                            assert(!line_errs(km@, line@));
                            assert(st == line_next_state(km@, st0, line@));
                        }
                    } else {
                        let c = resolve_symbol(sym.as_str(), st.shift_l || st.shift_r);
                        out.push(c);
                        proof {
                            assert(line_emits(km@, st0, line@) == Some(
                                resolve_sym(sym@, st0.shift_held()),
                            ));
                            assert(!line_errs(km@, line@));
                            assert(line_next_state(km@, st0, line@) == st0);
                            assert(out.deep_view() =~= out0.push(
                                resolve_sym(sym@, st0.shift_held()),
                            ));
                        }
                    }
                },
            }
        } else {
            proof {
                assert(!is_event_line(line@));
                assert(line_emits(km@, st0, line@) is None);
                assert(!line_errs(km@, line@));
                assert(line_next_state(km@, st0, line@) == st0);
            }
        }
        proof {
            assert(st == line_next_state(km@, st0, line@));
            match run_from(km@, st, dv.skip(idx as int + 1)) {
                Ok(rest) => {
                    match line_emits(km@, st0, line@) {
                        Some(c) => {
                            assert(run_from(km@, st0, suffix) == Ok::<Seq<Seq<char>>, Seq<char>>(
                                seq![c] + rest,
                            ));
                            assert(out.deep_view() + rest =~= out0 + (seq![c] + rest));
                        },
                        None => {
                            assert(out.deep_view() == out0);
                        },
                    }
                },
                Err(_) => {
                },
            }
        }
        idx += 1;
    }
    proof {
        assert(dv.skip(dv.len() as int) =~= Seq::<Seq<char>>::empty());
        assert(out.deep_view() + Seq::<Seq<char>>::empty() =~= out.deep_view());
    }
    Ok(out)
}

} // verus!
