//! Builds Whisper's `initial_prompt` from the user's glossary terms.
//!
//! The prompt is a plain comma-separated list — no prefix sentence, so it
//! stays language-neutral (works for both pt and en transcriptions).
use vstd::prelude::*;
use crate::text;

verus! {

/// Whisper's prompt window is ~224 tokens. 700 is a safe margin below
/// that for both pt and en text. Measured in BYTES (`str::len`), which
/// is intentionally conservative for multi-byte text: accented terms
/// consume budget faster, never overflowing the real token window.
pub const MAX_PROMPT_CHARS: usize = 700;

/// The prompt built from `terms`, continuing the prompt `acc` built so far: each
/// term is trimmed, blank terms are skipped, and the first term that would push the
/// byte length past the cap ends the prompt.
pub open spec fn prompt_from(terms: Seq<Seq<char>>, acc: Seq<char>) -> Seq<char>
    decreases terms.len(),
{
    if terms.len() == 0 {
        acc
    } else {
        let t = text::trim(terms[0]);
        if t.len() == 0 {
            prompt_from(terms.drop_first(), acc)
        } else {
            let needed = if acc.len() == 0 {
                text::utf8_len(t)
            } else {
                text::utf8_len(t) + 2
            };
            if text::utf8_len(acc) + needed > MAX_PROMPT_CHARS {
                acc
            } else {
                prompt_from(
                    terms.drop_first(),
                    if acc.len() == 0 {
                        t
                    } else {
                        acc + seq![',', ' '] + t
                    },
                )
            }
        }
    }
}

/// What `build_initial_prompt` returns.
pub open spec fn spec_initial_prompt(terms: Seq<Seq<char>>) -> Option<Seq<char>> {
    let p = prompt_from(terms, Seq::empty());
    if p.len() == 0 {
        None
    } else {
        Some(p)
    }
}

proof fn lemma_prompt_within_cap(terms: Seq<Seq<char>>, acc: Seq<char>)
    requires
        text::utf8_len(acc) <= MAX_PROMPT_CHARS,
    ensures
        text::utf8_len(prompt_from(terms, acc)) <= MAX_PROMPT_CHARS,
    decreases terms.len(),
{
    if terms.len() > 0 {
        let t = text::trim(terms[0]);
        if t.len() == 0 {
            lemma_prompt_within_cap(terms.drop_first(), acc);
        } else {
            let needed = if acc.len() == 0 {
                text::utf8_len(t)
            } else {
                text::utf8_len(t) + 2
            };
            if text::utf8_len(acc) + needed <= MAX_PROMPT_CHARS {
                let next = if acc.len() == 0 {
                    t
                } else {
                    acc + seq![',', ' '] + t
                };
                if acc.len() > 0 {
                    text::lemma_utf8_len_concat(acc, seq![',', ' ']);
                    text::lemma_utf8_len_concat(acc + seq![',', ' '], t);
                    assert(text::utf8_len(seq![',', ' ']) == 2) by {
                        reveal_with_fuel(vstd::utf8::encode_utf8, 3);
                    }
                }
                lemma_prompt_within_cap(terms.drop_first(), next);
            }
        }
    }
}

/// Law: a prompt, when there is one, never exceeds `MAX_PROMPT_CHARS` bytes.
pub proof fn lemma_initial_prompt_within_cap(terms: Seq<Seq<char>>)
    ensures
        spec_initial_prompt(terms) matches Some(p) ==> text::utf8_len(p) <= MAX_PROMPT_CHARS,
{
    assert(text::utf8_len(Seq::<char>::empty()) == 0) by {
        reveal_with_fuel(vstd::utf8::encode_utf8, 1);
    }
    lemma_prompt_within_cap(terms, Seq::empty());
}

/// The glossary's items: each term trimmed (as `str::trim`), blank ones left out, in
/// order.
pub open spec fn glossary_items(terms: Seq<Seq<char>>) -> Seq<Seq<char>>
    decreases terms.len(),
{
    if terms.len() == 0 {
        Seq::empty()
    } else if text::trim(terms[0]).len() == 0 {
        glossary_items(terms.drop_first())
    } else {
        seq![text::trim(terms[0])] + glossary_items(terms.drop_first())
    }
}

proof fn lemma_items_non_empty(terms: Seq<Seq<char>>)
    ensures
        forall|i: int|
            0 <= i < glossary_items(terms).len() ==> (#[trigger] glossary_items(terms)[i]).len() > 0,
    decreases terms.len(),
{
    if terms.len() > 0 {
        lemma_items_non_empty(terms.drop_first());
        let rest = glossary_items(terms.drop_first());
        if text::trim(terms[0]).len() > 0 {
            assert forall|i: int| 0 <= i < glossary_items(terms).len() implies (
            #[trigger] glossary_items(terms)[i]).len() > 0 by {
                if i > 0 {
                    assert(glossary_items(terms)[i] == rest[i - 1]);
                }
            }
        }
    }
}

proof fn lemma_join_push(done: Seq<Seq<char>>, t: Seq<char>)
    ensures
        text::join(done.push(t), seq![',', ' ']) == if done.len() == 0 {
            t
        } else {
            text::join(done, seq![',', ' ']) + seq![',', ' '] + t
        },
{
    if done.len() > 0 {
        assert(done.push(t).drop_last() =~= done);
    }
}

proof fn lemma_join_non_empty(parts: Seq<Seq<char>>)
    requires
        forall|i: int| 0 <= i < parts.len() ==> (#[trigger] parts[i]).len() > 0,
    ensures
        text::join(parts, seq![',', ' ']).len() == 0 <==> parts.len() == 0,
{
    if parts.len() > 1 {
        assert(parts.last() == parts[parts.len() - 1]);
    } else if parts.len() == 1 {
        assert(parts[0].len() > 0);
    }
}

proof fn lemma_prompt_from_items(terms: Seq<Seq<char>>, done: Seq<Seq<char>>)
    requires
        forall|i: int| 0 <= i < done.len() ==> (#[trigger] done[i]).len() > 0,
        text::utf8_len(text::join(done, seq![',', ' '])) <= MAX_PROMPT_CHARS,
    ensures
        exists|k: int| #![trigger glossary_items(terms).take(k)]
            0 <= k <= glossary_items(terms).len() && prompt_from(terms, text::join(done, seq![',', ' ']))
                == text::join(done + glossary_items(terms).take(k), seq![',', ' ']) && (k
                < glossary_items(terms).len() ==> text::utf8_len(
                text::join(done + glossary_items(terms).take(k + 1), seq![',', ' ']),
            ) > MAX_PROMPT_CHARS),
    decreases terms.len(),
{
    let sep = seq![',', ' '];
    let acc = text::join(done, sep);
    let items = glossary_items(terms);
    if terms.len() == 0 {
        assert(done + items.take(0) =~= done);
        assert(prompt_from(terms, acc) == text::join(done + items.take(0), sep));
    } else {
        let rest = terms.drop_first();
        let t = text::trim(terms[0]);
        if t.len() == 0 {
            lemma_prompt_from_items(rest, done);
            let k = choose|k: int| #![trigger glossary_items(rest).take(k)]
                0 <= k <= glossary_items(rest).len() && prompt_from(rest, acc) == text::join(
                    done + glossary_items(rest).take(k),
                    sep,
                ) && (k < glossary_items(rest).len() ==> text::utf8_len(
                    text::join(done + glossary_items(rest).take(k + 1), sep),
                ) > MAX_PROMPT_CHARS);
            assert(items == glossary_items(rest));
            assert(prompt_from(terms, acc) == text::join(done + items.take(k), sep));
        } else {
            assert(items == seq![t] + glossary_items(rest));
            lemma_join_non_empty(done);
            lemma_join_push(done, t);
            let next = text::join(done.push(t), sep);
            let needed = if acc.len() == 0 {
                text::utf8_len(t)
            } else {
                text::utf8_len(t) + 2
            };
            if done.len() > 0 {
                text::lemma_utf8_len_concat(acc, sep);
                text::lemma_utf8_len_concat(acc + sep, t);
                assert(text::utf8_len(sep) == 2) by {
                    reveal_with_fuel(vstd::utf8::encode_utf8, 3);
                }
            } else {
                assert(text::utf8_len(acc) == 0) by {
                    assert(acc =~= Seq::<char>::empty());
                    reveal_with_fuel(vstd::utf8::encode_utf8, 1);
                }
            }
            assert(text::utf8_len(next) == text::utf8_len(acc) + needed);
            assert(done + items.take(1) =~= done.push(t));
            if text::utf8_len(acc) + needed > MAX_PROMPT_CHARS {
                assert(done + items.take(0) =~= done);
                assert(prompt_from(terms, acc) == text::join(done + items.take(0), sep));
            } else {
                let done2 = done.push(t);
                assert forall|i: int| 0 <= i < done2.len() implies (#[trigger] done2[i]).len() > 0 by {
                    if i < done.len() {
                        assert(done2[i] == done[i]);
                    }
                }
                lemma_prompt_from_items(rest, done2);
                let ri = glossary_items(rest);
                let k = choose|k: int| #![trigger ri.take(k)]
                    0 <= k <= ri.len() && prompt_from(rest, next) == text::join(done2 + ri.take(k), sep)
                        && (k < ri.len() ==> text::utf8_len(text::join(done2 + ri.take(k + 1), sep))
                        > MAX_PROMPT_CHARS);
                assert(prompt_from(terms, acc) == prompt_from(rest, next));
                assert(done2 + ri.take(k) =~= done + items.take(k + 1));
                assert(k < ri.len() ==> done2 + ri.take(k + 1) =~= done + items.take(k + 2));
                assert(prompt_from(terms, acc) == text::join(done + items.take(k + 1), sep));
            }
        }
    }
}

/// Law: the prompt is the glossary's items (each term trimmed, blank ones left out)
/// joined by `", "`, as many of them, from the first, as fit in `MAX_PROMPT_CHARS`
/// bytes: it ends before the first item that would pass the cap, and there is no
/// prompt when not even the first item fits, or there are no items.
pub proof fn lemma_initial_prompt_items(terms: Seq<Seq<char>>)
    ensures
        exists|k: int| #![trigger glossary_items(terms).take(k)]
            0 <= k <= glossary_items(terms).len() && spec_initial_prompt(terms) == (if k == 0 {
                None
            } else {
                Some(text::join(glossary_items(terms).take(k), seq![',', ' ']))
            }) && (k < glossary_items(terms).len() ==> text::utf8_len(
                text::join(glossary_items(terms).take(k + 1), seq![',', ' ']),
            ) > MAX_PROMPT_CHARS),
{
    let sep = seq![',', ' '];
    let none = Seq::<Seq<char>>::empty();
    assert(text::join(none, sep) =~= Seq::<char>::empty());
    assert(text::utf8_len(Seq::<char>::empty()) == 0) by {
        reveal_with_fuel(vstd::utf8::encode_utf8, 1);
    }
    lemma_prompt_from_items(terms, none);
    let items = glossary_items(terms);
    let k = choose|k: int| #![trigger items.take(k)]
        0 <= k <= items.len() && prompt_from(terms, text::join(none, sep)) == text::join(
            none + items.take(k),
            sep,
        ) && (k < items.len() ==> text::utf8_len(text::join(none + items.take(k + 1), sep))
            > MAX_PROMPT_CHARS);
    assert(none + items.take(k) =~= items.take(k));
    assert(k < items.len() ==> none + items.take(k + 1) =~= items.take(k + 1));
    lemma_items_non_empty(terms);
    let taken = items.take(k);
    assert forall|i: int| 0 <= i < taken.len() implies (#[trigger] taken[i]).len() > 0 by {
        assert(taken[i] == items[i]);
    }
    lemma_join_non_empty(taken);
}

/// Joins glossary terms into a comma-separated prompt, dropping terms
/// (in insertion order) once the cap would be exceeded. Returns `None`
/// when no term fits — callers then transcribe without a prompt.
pub fn build_initial_prompt(terms: &[String]) -> (r: Option<String>)
    ensures
        r matches Some(p) ==> spec_initial_prompt(text::views(terms@)) == Some(p@),
        r is None ==> spec_initial_prompt(text::views(terms@)) is None,
{
    let ghost all = text::views(terms@);
    let mut prompt: Vec<char> = Vec::new();
    let mut prompt_len: usize = 0;
    let n = terms.len();
    let mut i: usize = 0;
    proof {
        reveal_with_fuel(vstd::utf8::encode_utf8, 1);
        assert(all.skip(0) =~= all);
    }
    while i < n
        invariant
            n == terms@.len(),
            all == text::views(terms@),
            i <= n,
            prompt_len == text::utf8_len(prompt@),
            prompt_len <= MAX_PROMPT_CHARS,
            prompt_from(all.skip(i as int), prompt@) == prompt_from(all, Seq::empty()),
        ensures
            prompt@ == prompt_from(all, Seq::empty()),
        decreases n - i,
    {
        let chars = text::chars_of(terms[i].as_str());
        let term = text::trim_chars(&chars);
        let ghost rest = all.skip(i as int);
        assert(rest[0] == terms@[i as int]@);
        assert(rest.drop_first() =~= all.skip(i + 1));
        if term.len() == 0 {
            i = i + 1;
            continue;
        }
        let term_len = text::utf8_len_capped(&term, MAX_PROMPT_CHARS);
        let room = MAX_PROMPT_CHARS - prompt_len;
        let over = if prompt.len() == 0 {
            term_len > room
        } else {
            term_len > room || term_len + 2 > room
        };
        if over {
            assert(prompt_from(rest, prompt@) == prompt@);
            break;
        }
        let ghost before = prompt@;
        let was_empty = prompt.len() == 0;
        if !was_empty {
            prompt.push(',');
            prompt.push(' ');
        }
        let m = term.len();
        let mut j: usize = 0;
        let ghost base = prompt@;
        while j < m
            invariant
                m == term@.len(),
                j <= m,
                prompt@ == base + term@.take(j as int),
            decreases m - j,
        {
            prompt.push(term[j]);
            j = j + 1;
            assert(prompt@ =~= base + term@.take(j as int));
        }
        assert(term@.take(m as int) =~= term@);
        proof {
            if before.len() > 0 {
                assert(base =~= before + seq![',', ' ']);
                text::lemma_utf8_len_concat(before, seq![',', ' ']);
                text::lemma_utf8_len_concat(base, term@);
                assert(text::utf8_len(seq![',', ' ']) == 2) by {
                    reveal_with_fuel(vstd::utf8::encode_utf8, 3);
                }
            } else {
                assert(base =~= before);
                assert(prompt@ =~= term@);
            }
        }
        prompt_len = if was_empty { term_len } else { prompt_len + 2 + term_len };
        i = i + 1;
    }
    if prompt.len() == 0 {
        None
    } else {
        Some(text::string_of(&prompt))
    }
}

} // verus!
