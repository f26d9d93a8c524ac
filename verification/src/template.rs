use vstd::prelude::*;
use crate::http_request_executor::VariableStorage;
use crate::http_request_executor::contains_spec;
use crate::http_request_executor::dynamic_value_ok;

verus! {

/// The characters a placeholder name may consist of: ASCII letters,
/// digits, `_`, and the dynamic-variable sigil `$`.
pub open spec fn is_word_char(c: char) -> bool {
    let u = c as u32;
    u == 36 || u == 95 || (97 <= u && u <= 122) || (65 <= u && u <= 90) || (48 <= u && u <= 57)
}

fn is_word_char_exec(c: char) -> (r: bool)
    ensures
        r == is_word_char(c),
{
    let u = c as u32;
    u == 36 || u == 95 || (97 <= u && u <= 122) || (65 <= u && u <= 90) || (48 <= u && u <= 57)
}

/// The first index at or after `i` holding no word character (`s.len()`
/// if the run reaches the end).
pub open spec fn word_run_end(s: Seq<char>, i: int) -> int
    decreases s.len() - i,
{
    if i < 0 || i >= s.len() {
        i
    } else if is_word_char(s[i]) {
        word_run_end(s, i + 1)
    } else {
        i
    }
}

pub proof fn lemma_word_run_end(s: Seq<char>, i: int)
    requires
        0 <= i <= s.len(),
    ensures
        i <= word_run_end(s, i) <= s.len(),
    decreases s.len() - i,
{
    if i < s.len() && is_word_char(s[i]) {
        lemma_word_run_end(s, i + 1);
    }
}

/// Whether a `{{name}}` placeholder starts at index `i`: two opening
/// braces, a non-empty run of word characters, two closing braces.
pub open spec fn has_placeholder_at(s: Seq<char>, i: int) -> bool {
    &&& 0 <= i
    &&& i + 2 <= s.len()
    &&& s[i] == '{'
    &&& s[i + 1] == '{'
    &&& word_run_end(s, i + 2) > i + 2
    &&& word_run_end(s, i + 2) + 2 <= s.len()
    &&& s[word_run_end(s, i + 2)] == '}'
    &&& s[word_run_end(s, i + 2) + 1] == '}'
}

/// The name enclosed by the placeholder starting at `i`.
pub open spec fn ph_name(s: Seq<char>, i: int) -> Seq<char> {
    s.subrange(i + 2, word_run_end(s, i + 2))
}

/// The index just past the placeholder starting at `i`.
pub open spec fn ph_end(s: Seq<char>, i: int) -> int {
    word_run_end(s, i + 2) + 2
}

/// A placeholder whose name the store knows starts at `i`.
pub open spec fn known_placeholder_at(
    s: Seq<char>,
    i: int,
    m: Map<Seq<char>, Seq<char>>,
) -> bool {
    has_placeholder_at(s, i) && contains_spec(m, ph_name(s, i))
}

/// How an output text can resolve `s[i..]` against a store whose entries
/// are `m`, in a single left-to-right pass: a placeholder whose name the
/// store knows is replaced — a stored name by exactly its value, a
/// dynamic name by some fresh value — and any other character, unknown
/// placeholders included, is copied unchanged. Substituted text is not
/// scanned again. (No placeholder can start strictly inside a
/// placeholder's own text, so copying an unknown placeholder character by
/// character leaves it untouched as a whole.)
pub open spec fn resolves_from(
    s: Seq<char>,
    i: int,
    m: Map<Seq<char>, Seq<char>>,
    out: Seq<char>,
) -> bool
    decreases s.len() - i,
    via resolves_from_decreases
{
    if i < 0 || i >= s.len() {
        out == Seq::<char>::empty()
    } else if known_placeholder_at(s, i, m) {
        let name = ph_name(s, i);
        let e = ph_end(s, i);
        if name.len() >= 1 && name[0] == '$' {
            exists|v: Seq<char>, rest: Seq<char>|
                out == v + rest && dynamic_value_ok(name, v) && resolves_from(s, e, m, rest)
        } else {
            exists|rest: Seq<char>| out == m[name] + rest && resolves_from(s, e, m, rest)
        }
    } else {
        exists|rest: Seq<char>| out == seq![s[i]] + rest && resolves_from(s, i + 1, m, rest)
    }
}

#[via_fn]
proof fn resolves_from_decreases(
    s: Seq<char>,
    i: int,
    m: Map<Seq<char>, Seq<char>>,
    out: Seq<char>,
) {
    if 0 <= i < s.len() && has_placeholder_at(s, i) {
        lemma_word_run_end(s, i + 2);
    }
}

/// An output resolving the whole of `s`.
pub open spec fn resolves_to(s: Seq<char>, m: Map<Seq<char>, Seq<char>>, out: Seq<char>) -> bool {
    resolves_from(s, 0, m, out)
}

/// The one resolution of `s[i..]` when no known dynamic placeholder
/// occurs in it; `None` as soon as one does.
pub open spec fn static_resolve_from(s: Seq<char>, i: int, m: Map<Seq<char>, Seq<char>>) -> Option<
    Seq<char>,
>
    decreases s.len() - i,
    via static_resolve_from_decreases
{
    if i < 0 || i >= s.len() {
        Some(Seq::<char>::empty())
    } else if known_placeholder_at(s, i, m) {
        let name = ph_name(s, i);
        let e = ph_end(s, i);
        if name.len() >= 1 && name[0] == '$' {
            None
        } else {
            match static_resolve_from(s, e, m) {
                Some(rest) => Some(m[name] + rest),
                None => None,
            }
        }
    } else {
        match static_resolve_from(s, i + 1, m) {
            Some(rest) => Some(seq![s[i]] + rest),
            None => None,
        }
    }
}

#[via_fn]
proof fn static_resolve_from_decreases(s: Seq<char>, i: int, m: Map<Seq<char>, Seq<char>>) {
    if 0 <= i < s.len() && has_placeholder_at(s, i) {
        lemma_word_run_end(s, i + 2);
    }
}

/// The one resolution of the whole of `s`, when it has no known dynamic
/// placeholder.
pub open spec fn static_resolve(s: Seq<char>, m: Map<Seq<char>, Seq<char>>) -> Option<Seq<char>> {
    static_resolve_from(s, 0, m)
}

/// On a text without known dynamic placeholders, resolution is a
/// function: every output satisfying the resolution relation equals the
/// one static resolution.
pub proof fn lemma_static_resolve_deterministic(
    s: Seq<char>,
    i: int,
    m: Map<Seq<char>, Seq<char>>,
    out: Seq<char>,
)
    requires
        resolves_from(s, i, m, out),
        static_resolve_from(s, i, m) is Some,
    ensures
        out == static_resolve_from(s, i, m)->0,
    decreases s.len() - i,
{
    if i < 0 || i >= s.len() {
    } else if known_placeholder_at(s, i, m) {
        lemma_word_run_end(s, i + 2);
        let name = ph_name(s, i);
        let e = ph_end(s, i);
        if name.len() >= 1 && name[0] == '$' {
            assert(static_resolve_from(s, i, m) is None);
        } else {
            let rest = choose|rest: Seq<char>|
                out == m[name] + rest && resolves_from(s, e, m, rest);
            lemma_static_resolve_deterministic(s, e, m, rest);
        }
    } else {
        let rest = choose|rest: Seq<char>|
            out == seq![s[i]] + rest && resolves_from(s, i + 1, m, rest);
        lemma_static_resolve_deterministic(s, i + 1, m, rest);
    }
}

/// Replaces every `{{name}}` placeholder of `text` whose name the store
/// knows; unknown placeholders and all other text stay untouched.
pub fn resolve_template(text: &str, store: &VariableStorage) -> (r: String)
    requires
        store.wf(),
    ensures
        resolves_to(text@, store@, r@),
        static_resolve(text@, store@) matches Some(o) ==> r@ == o,
{
    let n = text.unicode_len();
    let mut out = String::new();
    let mut i: usize = 0;
    while i < n
        invariant
            store.wf(),
            n == text@.len(),
            0 <= i <= n,
            forall|rest: Seq<char>|
                resolves_from(text@, i as int, store@, rest) ==> resolves_from(
                    text@,
                    0,
                    store@,
                    out@ + rest,
                ),
            (static_resolve_from(text@, 0, store@) matches Some(o) ==> static_resolve_from(
                text@,
                i as int,
                store@,
            ) matches Some(oi) && o == out@ + oi),
        decreases n - i,
    {
        let ghost i1 = i as int;
        let ghost out1 = out@;
        let ghost m = store@;
        let c = text.get_char(i);
        let mut matched = false;
        if c == '{' && n - i >= 2 && text.get_char(i + 1) == '{' {
            let mut k = i + 2;
            while k < n && is_word_char_exec(text.get_char(k))
                invariant
                    n == text@.len(),
                    i + 2 <= k <= n,
                    word_run_end(text@, i + 2) == word_run_end(text@, k as int),
                decreases n - k,
            {
                k += 1;
            }
            assert(word_run_end(text@, i1 + 2) == k as int);
            if k > i + 2 && n - k >= 2 && text.get_char(k) == '}' && text.get_char(k + 1) == '}' {
                assert(has_placeholder_at(text@, i1));
                let name = text.substring_char(i + 2, k).to_owned();
                assert(name@ == ph_name(text@, i1));
                if store.contains(name.as_str()) {
                    matched = true;
                    let piece = store.get(&name);
                    out.append(piece.as_str());
                    i = k + 2;
                    proof {
                        let e = ph_end(text@, i1);
                        assert(e == i as int);
                        assert(known_placeholder_at(text@, i1, m));
                        assert forall|rest2: Seq<char>|
                            resolves_from(text@, i as int, m, rest2) implies resolves_from(
                            text@,
                            i1,
                            m,
                            piece@ + rest2,
                        ) by {
                            if name@.len() >= 1 && name@[0] == '$' {
                                assert(dynamic_value_ok(name@, piece@));
                                assert((piece@ + rest2) == piece@ + rest2 && dynamic_value_ok(
                                    name@,
                                    piece@,
                                ) && resolves_from(text@, e, m, rest2));
                            } else {
                                assert(piece@ == m[name@]);
                            }
                        }
                        assert forall|rest2: Seq<char>|
                            resolves_from(text@, i as int, m, rest2) implies resolves_from(
                            text@,
                            0,
                            m,
                            out@ + rest2,
                        ) by {
                            assert(resolves_from(text@, i1, m, piece@ + rest2));
                            assert(out@ + rest2 =~= out1 + (piece@ + rest2));
                        }
                        if static_resolve_from(text@, 0, m) is Some {
                            assert(static_resolve_from(text@, i1, m) is Some);
                            if name@.len() >= 1 && name@[0] == '$' {
                                assert(static_resolve_from(text@, i1, m) is None);
                            }
                            assert(static_resolve_from(text@, i as int, m) is Some);
                            assert(static_resolve_from(text@, i1, m)->0 == piece@
                                + static_resolve_from(text@, i as int, m)->0);
                            assert(static_resolve_from(text@, 0, m)->0 =~= out@
                                + static_resolve_from(text@, i as int, m)->0);
                        }
                    }
                }
            }
        }
        if !matched {
            assert(!known_placeholder_at(text@, i1, m));
            let piece = text.substring_char(i, i + 1);
            out.append(piece);
            i = i + 1;
            proof {
                assert(piece@ =~= seq![text@[i1]]);
                assert forall|rest2: Seq<char>|
                    resolves_from(text@, i as int, m, rest2) implies resolves_from(
                    text@,
                    0,
                    m,
                    out@ + rest2,
                ) by {
                    assert((piece@ + rest2) == seq![text@[i1]] + rest2 && resolves_from(
                        text@,
                        i as int,
                        m,
                        rest2,
                    ));
                    assert(resolves_from(text@, i1, m, piece@ + rest2));
                    assert(out@ + rest2 =~= out1 + (piece@ + rest2));
                }
                if static_resolve_from(text@, 0, m) is Some {
                    assert(static_resolve_from(text@, i as int, m) is Some);
                    assert(static_resolve_from(text@, i1, m)->0 == piece@ + static_resolve_from(
                        text@,
                        i as int,
                        m,
                    )->0);
                    assert(static_resolve_from(text@, 0, m)->0 =~= out@ + static_resolve_from(
                        text@,
                        i as int,
                        m,
                    )->0);
                }
            }
        }
    }
    proof {
        assert(resolves_from(text@, i as int, store@, Seq::<char>::empty()));
        assert(out@ + Seq::<char>::empty() =~= out@);
    }
    out
}

} // verus!
