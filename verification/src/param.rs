//! Classification of parameterization clauses: each clause names a type
//! variable and either enumerates its permissible types or describes them
//! in prose.

use vstd::prelude::*;

use crate::doc::Cell;
use crate::doc::CellPart;
use crate::doc::CellPartV;
use crate::doc::CellV;
use crate::nmap::NameMap;
use crate::records::Parameterization;
use crate::records::ParameterizationKind;
use crate::records::ParameterizationKindV;
use crate::text::chars_of;
use crate::text::eq_chars;
use crate::text::frags_words;
use crate::text::join_from;
use crate::text::join_words_range;
use crate::text::spec_words;
use crate::text::split_words;
use crate::text::string_of;

verus! {

/// A word that blocks the enumeration reading of an `is` clause.
pub open spec fn is_article_word(w: Seq<char>) -> bool {
    w == "a"@ || w == "an"@ || w == "concrete"@ || w == "constructible"@
}

/// `w` with every trailing comma removed.
pub open spec fn spec_trim_commas(w: Seq<char>) -> Seq<char>
    decreases w.len(),
{
    if w.len() > 0 && w.last() == ',' {
        spec_trim_commas(w.drop_last())
    } else {
        w
    }
}

/// The type names among enumeration words: the literal separators `,` and
/// `or` are skipped, and each kept word loses its trailing commas.
pub open spec fn spec_collect_types(ws: Seq<Seq<char>>) -> Seq<Seq<char>>
    decreases ws.len(),
{
    if ws.len() == 0 {
        Seq::empty()
    } else if ws[0] == ","@ || ws[0] == "or"@ {
        spec_collect_types(ws.drop_first())
    } else {
        seq![spec_trim_commas(ws[0])] + spec_collect_types(ws.drop_first())
    }
}

/// The classification of a clause's words: an enumeration when the second
/// word is `is` and the third is not an article-like word, else prose.
pub open spec fn spec_classify_words(words: Seq<Seq<char>>) -> ParameterizationKindV
    recommends
        words.len() >= 2,
{
    if words.len() >= 2 && words[1] == "is"@ && !(words.len() >= 3 && is_article_word(
        words[2],
    )) {
        ParameterizationKindV::Types(spec_collect_types(words.skip(2)))
    } else {
        ParameterizationKindV::Description(join_from(Seq::empty(), words.skip(1)))
    }
}

/// Removes every trailing comma of `w`.
fn trim_commas(w: &Vec<char>) -> (r: Vec<char>)
    ensures
        r@ == spec_trim_commas(w@),
{
    let mut j = w.len();
    proof {
        assert(w@.take(j as int) =~= w@);
    }
    while j > 0 && w[j - 1] == ','
        invariant
            j <= w.len(),
            spec_trim_commas(w@) == spec_trim_commas(w@.take(j as int)),
        decreases j,
    {
        proof {
            assert(w@.take(j as int).drop_last() =~= w@.take(j as int - 1));
            assert(w@.take(j as int).last() == w@[j as int - 1]);
        }
        j = j - 1;
    }
    let mut r: Vec<char> = Vec::new();
    for i in 0..j
        invariant
            j <= w.len(),
            r@ == w@.take(i as int),
    {
        r.push(w[i]);
        proof {
            assert(w@.take(i as int).push(w@[i as int]) =~= w@.take(i as int + 1));
        }
    }
    proof {
        if j > 0 {
            assert(w@.take(j as int).last() == w@[j as int - 1]);
            assert(spec_trim_commas(w@.take(j as int)) == w@.take(j as int));
        } else {
            assert(w@.take(0) =~= Seq::<char>::empty());
        }
    }
    r
}

/// The whitespace-delimited words of all fragments, in order.
pub fn words_of_frags(frags: &Vec<String>) -> (r: Vec<Vec<char>>)
    ensures
        r.deep_view() == frags_words(frags.deep_view()),
{
    let n = frags.len();
    let mut r: Vec<Vec<char>> = Vec::new();
    proof {
        assert(frags.deep_view().take(0) =~~= Seq::<Seq<char>>::empty());
        assert(r.deep_view() =~~= Seq::<Seq<char>>::empty());
    }
    for i in 0..n
        invariant
            n == frags.len(),
            r.deep_view() == frags_words(frags.deep_view().take(i as int)),
    {
        proof {
            assert(frags.deep_view()[i as int] == frags@[i as int].deep_view());
        }
        let cs = chars_of(frags[i].as_str());
        let ws = split_words(&cs);
        let m = ws.len();
        let ghost r0 = r.deep_view();
        let ghost wsv = ws.deep_view();
        for j in 0..m
            invariant
                m == ws.len(),
                wsv == ws.deep_view(),
                r.deep_view() == r0 + wsv.take(j as int),
        {
            let ghost r1 = r.deep_view();
            r.push(ws[j].clone());
            proof {
                assert(ws@[j as int].deep_view() =~= ws@[j as int]@);
                assert(r.deep_view() =~~= r1.push(wsv[j as int]));
                assert(r1.push(wsv[j as int]) =~~= r0 + wsv.take(j as int + 1));
            }
        }
        proof {
            let dv = frags.deep_view();
            assert(wsv.take(m as int) =~~= wsv);
            crate::text::lemma_frags_words_push(dv.take(i as int), dv[i as int]);
            assert(dv.take(i as int).push(dv[i as int]) =~~= dv.take(i as int + 1));
        }
    }
    proof {
        assert(frags.deep_view().take(n as int) =~~= frags.deep_view());
    }
    r
}

/// Classifies the words of one clause, `spec_classify_words`-wise.
fn classify_words(words: &Vec<Vec<char>>) -> (r: ParameterizationKind)
    requires
        words.len() >= 2,
    ensures
        r@ == spec_classify_words(words.deep_view()),
{
    let ghost dv = words.deep_view();
    let is_lit = chars_of("is");
    let mut enumerated = false;
    if words.len() >= 2 {
        proof {
            assert(dv[1] =~= words@[1]@);
        }
        if eq_chars(&words[1], &is_lit) {
            enumerated = true;
            if words.len() >= 3 {
                proof {
                    assert(dv[2] =~= words@[2]@);
                }
                let a = chars_of("a");
                let an = chars_of("an");
                let conc = chars_of("concrete");
                let cons = chars_of("constructible");
                if eq_chars(&words[2], &a) || eq_chars(&words[2], &an) || eq_chars(
                    &words[2],
                    &conc,
                ) || eq_chars(&words[2], &cons) {
                    enumerated = false;
                }
            }
        }
    }
    if enumerated {
        let comma = chars_of(",");
        let or_lit = chars_of("or");
        let n = words.len();
        let mut types: Vec<String> = Vec::new();
        proof {
            assert(dv.skip(2).skip(0) =~~= dv.skip(2));
            assert(types.deep_view() + spec_collect_types(dv.skip(2)) =~~= spec_collect_types(
                dv.skip(2),
            ));
        }
        let mut i: usize = 2;
        while i < n
            invariant
                n == words.len(),
                n >= 2,
                2 <= i <= n,
                dv == words.deep_view(),
                comma@ == ","@,
                or_lit@ == "or"@,
                spec_collect_types(dv.skip(2)) == types.deep_view() + spec_collect_types(
                    dv.skip(i as int),
                ),
            decreases n - i,
        {
            proof {
                assert(dv.skip(i as int).drop_first() =~~= dv.skip(i as int + 1));
                assert(dv.skip(i as int)[0] == dv[i as int]);
                assert(dv[i as int] =~= words@[i as int]@);
            }
            if eq_chars(&words[i], &comma) || eq_chars(&words[i], &or_lit) {
                proof {
                    assert(words@[i as int]@ == ","@ || words@[i as int]@ == "or"@);
                    assert(dv.skip(i as int)[0] == ","@ || dv.skip(i as int)[0] == "or"@);
                    assert(spec_collect_types(dv.skip(i as int)) == spec_collect_types(
                        dv.skip(i as int + 1),
                    ));
                }
            } else {
                let t = trim_commas(&words[i]);
                let ghost t0 = types.deep_view();
                types.push(string_of(&t));
                proof {
                    assert(types.deep_view() =~~= t0.push(t@));
                    assert(t0.push(t@) + spec_collect_types(dv.skip(i as int + 1)) =~~= t0 + (
                    seq![spec_trim_commas(dv[i as int])] + spec_collect_types(
                        dv.skip(i as int + 1),
                    )));
                    assert(spec_collect_types(dv.skip(2)) == types.deep_view()
                        + spec_collect_types(dv.skip(i as int + 1)));
                }
            }
            i = i + 1;
        }
        proof {
            assert(dv.skip(n as int) =~~= Seq::<Seq<char>>::empty());
            assert(types.deep_view() + Seq::<Seq<char>>::empty() =~~= types.deep_view());
        }
        ParameterizationKind::Types(types)
    } else {
        let d = join_words_range(words, 1);
        ParameterizationKind::Description(string_of(&d))
    }
}

/// The clauses of a cell: runs of fragments separated by break parts.
pub open spec fn clauses_acc(ps: Seq<CellPartV>, cur: Seq<Seq<char>>) -> Seq<Seq<Seq<char>>>
    decreases ps.len(),
{
    if ps.len() == 0 {
        seq![cur]
    } else {
        match ps[0] {
            CellPartV::Text(t) => clauses_acc(ps.drop_first(), cur.push(t)),
            CellPartV::Break => seq![cur] + clauses_acc(ps.drop_first(), Seq::empty()),
        }
    }
}

/// The clauses of a cell.
pub open spec fn spec_clauses(ps: Seq<CellPartV>) -> Seq<Seq<Seq<char>>> {
    clauses_acc(ps, Seq::empty())
}

/// Folds the clauses into the type-variable map; the first word names the
/// variable, a later clause with the same name overwrites an earlier one,
/// and a clause with fewer than two words is silently skipped and
/// contributes nothing.
pub open spec fn param_map_from(
    m: Map<Seq<char>, ParameterizationKindV>,
    cls: Seq<Seq<Seq<char>>>,
) -> Map<Seq<char>, ParameterizationKindV>
    decreases cls.len(),
{
    if cls.len() == 0 {
        m
    } else {
        let words = frags_words(cls[0]);
        let m2 = if words.len() < 2 {
            m
        } else {
            m.insert(words[0], spec_classify_words(words))
        };
        param_map_from(m2, cls.drop_first())
    }
}

/// The type-variable map read from one cell.
pub open spec fn spec_parse_parameterization(c: CellV) -> Map<Seq<char>, ParameterizationKindV> {
    param_map_from(Map::empty(), spec_clauses(c.parts))
}

/// Folding one leading clause is one step.
proof fn lemma_param_map_step(
    m: Map<Seq<char>, ParameterizationKindV>,
    g: Seq<Seq<char>>,
    rest: Seq<Seq<Seq<char>>>,
)
    ensures
        param_map_from(m, seq![g] + rest) == param_map_from(
            if frags_words(g).len() < 2 {
                m
            } else {
                m.insert(frags_words(g)[0], spec_classify_words(frags_words(g)))
            },
            rest,
        ),
{
    assert((seq![g] + rest)[0] == g);
    assert((seq![g] + rest).drop_first() =~~= rest);
}

/// Processes one finished clause group into the map; a group of fewer than
/// two words is skipped.
fn flush_clause(m: &mut NameMap<ParameterizationKind>, group: &Vec<String>)
    requires
        old(m).wf(),
    ensures
        final(m).wf(),
        final(m)@ == (if frags_words(group.deep_view()).len() < 2 {
            old(m)@
        } else {
            old(m)@.insert(
                frags_words(group.deep_view())[0],
                spec_classify_words(frags_words(group.deep_view())),
            )
        }),
{
    let words = words_of_frags(group);
    if words.len() >= 2 {
        proof {
            assert(words.deep_view()[0] =~= words@[0]@);
        }
        let kind = classify_words(&words);
        m.insert(string_of(&words[0]), kind);
    }
}

/// Reads one cell's clauses into a parameterization: for each clause the
/// first word names the type variable and the rest classify it; a later
/// clause with the same name wins.
pub fn parse_parameterization(cell: &Cell) -> (r: Parameterization)
    ensures
        r@ == spec_parse_parameterization(cell@),
        r.wf(),
{
    let mut m: NameMap<ParameterizationKind> = NameMap::new();
    let mut group: Vec<String> = Vec::new();
    let n = cell.parts.len();
    let ghost ps = cell@.parts;
    proof {
        assert(ps.skip(0) =~~= ps);
        assert(group.deep_view() =~~= Seq::<Seq<char>>::empty());
    }
    for i in 0..n
        invariant
            n == cell.parts.len(),
            ps == cell@.parts,
            m.wf(),
            spec_parse_parameterization(cell@) == param_map_from(
                m@,
                clauses_acc(ps.skip(i as int), group.deep_view()),
            ),
    {
        proof {
            assert(ps.skip(i as int).drop_first() =~~= ps.skip(i as int + 1));
            assert(ps.skip(i as int)[0] == ps[i as int]);
            assert(ps[i as int] == cell.parts@[i as int]@);
        }
        match &cell.parts[i] {
            CellPart::Text(t) => {
                let ghost g0 = group.deep_view();
                group.push(t.clone());
                proof {
                    assert(group.deep_view() =~~= g0.push(t@));
                }
            },
            CellPart::Break => {
                proof {
                    lemma_param_map_step(
                        m@,
                        group.deep_view(),
                        clauses_acc(ps.skip(i as int + 1), Seq::empty()),
                    );
                }
                flush_clause(&mut m, &group);
                group = Vec::new();
                proof {
                    assert(group.deep_view() =~~= Seq::<Seq<char>>::empty());
                }
            },
        }
    }
    proof {
        assert(ps.skip(n as int) =~~= Seq::<CellPartV>::empty());
        lemma_param_map_step(
            m@,
            group.deep_view(),
            Seq::<Seq<Seq<char>>>::empty(),
        );
        assert(seq![group.deep_view()] + Seq::<Seq<Seq<char>>>::empty() =~~= seq![
            group.deep_view(),
        ]);
        assert(clauses_acc(ps.skip(n as int), group.deep_view()) =~~= seq![group.deep_view()]);
    }
    flush_clause(&mut m, &group);
    Parameterization { typevars: m }
}

/// Classifies one clause text: the first word names the type variable, the
/// rest are its constraint; `None` when the clause has fewer than two
/// words, which is silently skipped.
pub fn classify_clause(clause: &str) -> (r: Option<(String, ParameterizationKind)>)
    ensures
        r is Some <==> spec_words(clause@).len() >= 2,
        r matches Some(p) ==> p.0@ == spec_words(clause@)[0] && p.1@ == spec_classify_words(
            spec_words(clause@),
        ),
{
    let cs = chars_of(clause);
    let words = split_words(&cs);
    if words.len() < 2 {
        return None;
    }
    proof {
        assert(words.deep_view()[0] =~= words@[0]@);
    }
    let name = string_of(&words[0]);
    let kind = classify_words(&words);
    Some((name, kind))
}

} // verus!
