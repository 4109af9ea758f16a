//! Signature tokenization and function-name extraction.
//!
//! A token is a maximal run of identifier characters (ASCII letters, digits,
//! underscore, `@`); any other non-whitespace character stands alone as a
//! one-character token, and whitespace only separates.

use vstd::prelude::*;

use crate::text::chars_of;
use crate::text::is_space;
use crate::text::is_space_char;
use crate::text::string_of;

verus! {

/// A character that may stand in an identifier token.
pub open spec fn is_ident_char(c: char) -> bool {
    (0x30 <= c as u32 && c as u32 <= 0x39) || (0x61 <= c as u32 && c as u32 <= 0x7a) || (0x41
        <= c as u32 && c as u32 <= 0x5a) || c == '_' || c == '@'
}

/// Whether `c` may stand in an identifier token.
pub fn is_ident(c: char) -> (r: bool)
    ensures
        r == is_ident_char(c),
{
    (0x30 <= c as u32 && c as u32 <= 0x39) || (0x61 <= c as u32 && c as u32 <= 0x7a) || (0x41
        <= c as u32 && c as u32 <= 0x5a) || c == '_' || c == '@'
}

/// The tokens of `s` that follow an unfinished identifier run `cur`.
pub open spec fn tokens_acc(s: Seq<char>, cur: Seq<char>) -> Seq<Seq<char>>
    decreases s.len(),
{
    if s.len() == 0 {
        if cur.len() == 0 {
            Seq::empty()
        } else {
            seq![cur]
        }
    } else if is_ident_char(s[0]) {
        tokens_acc(s.drop_first(), cur.push(s[0]))
    } else {
        let rest = if is_space_char(s[0]) {
            tokens_acc(s.drop_first(), Seq::empty())
        } else {
            seq![seq![s[0]]] + tokens_acc(s.drop_first(), Seq::empty())
        };
        if cur.len() == 0 {
            rest
        } else {
            seq![cur] + rest
        }
    }
}

/// The token sequence of `s`.
pub open spec fn spec_tokens(s: Seq<char>) -> Seq<Seq<char>> {
    tokens_acc(s, Seq::empty())
}

/// Splits a raw signature string into its tokens.
pub fn tokenize(text: &str) -> (r: Vec<String>)
    ensures
        r.deep_view() == spec_tokens(text@),
{
    let cs = chars_of(text);
    let n = cs.len();
    let mut r: Vec<String> = Vec::new();
    let mut cur: Vec<char> = Vec::new();
    proof {
        assert(cs@.skip(0) =~= cs@);
        assert(r.deep_view() + tokens_acc(cs@, Seq::empty()) =~~= tokens_acc(cs@, Seq::empty()));
    }
    for i in 0..n
        invariant
            n == cs.len(),
            cs@ == text@,
            spec_tokens(text@) == r.deep_view() + tokens_acc(cs@.skip(i as int), cur@),
    {
        proof {
            assert(cs@.skip(i as int).drop_first() =~= cs@.skip(i as int + 1));
            assert(cs@.skip(i as int)[0] == cs@[i as int]);
        }
        let c = cs[i];
        if is_ident(c) {
            cur.push(c);
        } else {
            let ghost r0 = r.deep_view();
            let ghost w = cur@;
            if cur.len() > 0 {
                r.push(string_of(&cur));
                cur = Vec::new();
                proof {
                    assert(r.deep_view() =~~= r0.push(w));
                }
            }
            if is_space(c) {
                proof {
                    if w.len() > 0 {
                        assert(r0.push(w) + tokens_acc(cs@.skip(i as int + 1), cur@) =~~= r0 + (
                        seq![w] + tokens_acc(cs@.skip(i as int + 1), Seq::empty())));
                    } else {
                        assert(cur@ =~= Seq::<char>::empty());
                    }
                }
            } else {
                let mut one: Vec<char> = Vec::new();
                one.push(c);
                r.push(string_of(&one));
                proof {
                    assert(one@ =~= seq![c]);
                    if w.len() > 0 {
                        assert(r.deep_view() =~~= r0.push(w).push(seq![c]));
                        assert(r0.push(w).push(seq![c]) + tokens_acc(
                            cs@.skip(i as int + 1),
                            cur@,
                        ) =~~= r0 + (seq![w] + (seq![seq![c]] + tokens_acc(
                            cs@.skip(i as int + 1),
                            Seq::empty(),
                        ))));
                    } else {
                        assert(w =~= Seq::<char>::empty());
                        assert(cur@ =~= Seq::<char>::empty());
                        assert(r.deep_view() =~~= r0.push(seq![c]));
                        assert(r0.push(seq![c]) + tokens_acc(cs@.skip(i as int + 1), cur@) =~~= r0
                            + (seq![seq![c]] + tokens_acc(cs@.skip(i as int + 1), Seq::empty())));
                    }
                }
            }
        }
    }
    proof {
        assert(cs@.skip(n as int) =~= Seq::<char>::empty());
    }
    if cur.len() > 0 {
        let ghost r0 = r.deep_view();
        let ghost w = cur@;
        r.push(string_of(&cur));
        proof {
            assert(r.deep_view() =~~= r0.push(w));
            assert(r0.push(w) =~~= r0 + seq![w]);
        }
    } else {
        proof {
            assert(cur@ =~= Seq::<char>::empty());
            assert(r.deep_view() + Seq::<Seq<char>>::empty() =~~= r.deep_view());
        }
    }
    r
}

/// The token right after the first `fn` token, if any.
pub open spec fn name_after_fn(toks: Seq<Seq<char>>) -> Option<Seq<char>>
    decreases toks.len(),
{
    if toks.len() == 0 {
        Option::None
    } else if toks[0] == seq!['f', 'n'] {
        if toks.len() >= 2 {
            Option::Some(toks[1])
        } else {
            Option::None
        }
    } else {
        name_after_fn(toks.drop_first())
    }
}

/// The identifier right after the first `fn` keyword of a signature, if any.
pub open spec fn spec_function_name(s: Seq<char>) -> Option<Seq<char>> {
    name_after_fn(spec_tokens(s))
}

/// Returns the identifier immediately following the first `fn` keyword token
/// of `signature`, or `None` if no `fn` token is followed by a token.
pub fn function_name_from_signature(signature: &str) -> (r: Option<String>)
    ensures
        r is Some <==> spec_function_name(signature@) is Some,
        r matches Some(n) ==> spec_function_name(signature@) == Some(n@),
{
    let toks = tokenize(signature);
    let fnlit = String::from_str("fn");
    proof {
        reveal_strlit("fn");
        assert(fnlit@ =~= seq!['f', 'n']);
        assert(toks.deep_view().skip(0) =~~= toks.deep_view());
    }
    let n = toks.len();
    for i in 0..n
        invariant
            n == toks.len(),
            fnlit@ == seq!['f', 'n'],
            spec_function_name(signature@) == name_after_fn(toks.deep_view().skip(i as int)),
    {
        let ghost tail = toks.deep_view().skip(i as int);
        proof {
            assert(tail.drop_first() =~~= toks.deep_view().skip(i as int + 1));
            assert(tail[0] == toks.deep_view()[i as int]);
            assert(toks.deep_view()[i as int] == toks@[i as int]@);
        }
        if toks[i] == fnlit {
            if i + 1 < n {
                proof {
                    assert(tail[1] == toks.deep_view()[i as int + 1]);
                    assert(toks.deep_view()[i as int + 1] == toks@[i as int + 1]@);
                }
                return Some(toks[i + 1].clone());
            } else {
                proof {
                    assert(tail.len() == 1);
                }
                return None;
            }
        }
    }
    proof {
        assert(toks.deep_view().skip(n as int) =~~= Seq::<Seq<char>>::empty());
    }
    None
}

} // verus!
