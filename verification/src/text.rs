//! Text normalization: whitespace-splitting, word joining, substring search,
//! trimming and lexicographic ordering, all specified over `Seq<char>`.

use vstd::prelude::*;

verus! {

/// A character the normalizer treats as whitespace (the Unicode `White_Space` set).
pub open spec fn is_space_char(c: char) -> bool {
    c == ' ' || c == '\t' || c == '\n' || c == '\u{b}' || c == '\u{c}' || c == '\r'
        || c == '\u{85}' || c == '\u{a0}' || c == '\u{1680}'
        || (0x2000 <= c as u32 && c as u32 <= 0x200a)
        || c == '\u{2028}' || c == '\u{2029}' || c == '\u{202f}' || c == '\u{205f}'
        || c == '\u{3000}'
}

pub fn is_space(c: char) -> (r: bool)
    ensures
        r == is_space_char(c),
{
    c == ' ' || c == '\t' || c == '\n' || c == '\u{b}' || c == '\u{c}' || c == '\r'
        || c == '\u{85}' || c == '\u{a0}' || c == '\u{1680}'
        || (0x2000 <= c as u32 && c as u32 <= 0x200a)
        || c == '\u{2028}' || c == '\u{2029}' || c == '\u{202f}' || c == '\u{205f}'
        || c == '\u{3000}'
}

/// The whitespace-delimited words of `s` that follow an unfinished word `cur`.
pub open spec fn words_acc(s: Seq<char>, cur: Seq<char>) -> Seq<Seq<char>>
    decreases s.len(),
{
    if s.len() == 0 {
        if cur.len() == 0 {
            Seq::empty()
        } else {
            seq![cur]
        }
    } else if is_space_char(s[0]) {
        if cur.len() == 0 {
            words_acc(s.drop_first(), Seq::empty())
        } else {
            seq![cur] + words_acc(s.drop_first(), Seq::empty())
        }
    } else {
        words_acc(s.drop_first(), cur.push(s[0]))
    }
}

/// The whitespace-delimited words of `s`, in order.
pub open spec fn spec_words(s: Seq<char>) -> Seq<Seq<char>> {
    words_acc(s, Seq::empty())
}

/// A word that the joiner attaches without a preceding space.
pub open spec fn is_sep_word(w: Seq<char>) -> bool {
    w == seq!['.'] || w == seq![','] || w == seq![':'] || w == seq![';']
}

/// One step of joining: append `w` to `buf`, with a single space in between
/// unless the buffer is empty or `w` is a closing punctuation mark.
pub open spec fn join_push(buf: Seq<char>, w: Seq<char>) -> Seq<char> {
    if buf.len() == 0 || is_sep_word(w) {
        buf + w
    } else {
        buf + seq![' '] + w
    }
}

/// Joining every word of `ws`, in order, onto `buf`.
pub open spec fn join_from(buf: Seq<char>, ws: Seq<Seq<char>>) -> Seq<char>
    decreases ws.len(),
{
    if ws.len() == 0 {
        buf
    } else {
        join_from(join_push(buf, ws[0]), ws.drop_first())
    }
}

/// All words of all fragments, in document order.
pub open spec fn frags_words(frags: Seq<Seq<char>>) -> Seq<Seq<char>>
    decreases frags.len(),
{
    if frags.len() == 0 {
        Seq::empty()
    } else {
        spec_words(frags[0]) + frags_words(frags.drop_first())
    }
}

/// The canonical string for a sequence of raw text fragments.
pub open spec fn spec_join_words(frags: Seq<Seq<char>>) -> Seq<char> {
    join_from(Seq::empty(), frags_words(frags))
}

/// Relies on `String::push`: appends the character to the end of the string.
#[verifier::external_body]
fn push_char(s: &mut String, c: char)
    ensures
        final(s)@ == old(s)@.push(c),
{
    s.push(c)
}

/// The characters of `s`, as a vector.
pub fn chars_of(s: &str) -> (r: Vec<char>)
    ensures
        r@ == s@,
{
    let n = s.unicode_len();
    let mut r: Vec<char> = Vec::new();
    for i in 0..n
        invariant
            n == s@.len(),
            r@ == s@.take(i as int),
    {
        r.push(s.get_char(i));
        proof {
            assert(s@.take(i as int).push(s@[i as int]) =~= s@.take(i + 1 as int));
        }
    }
    proof {
        assert(s@.take(n as int) =~= s@);
    }
    r
}

/// The string holding exactly the characters of `v`.
pub fn string_of(v: &Vec<char>) -> (r: String)
    ensures
        r@ == v@,
{
    let mut r = String::new();
    let n = v.len();
    for i in 0..n
        invariant
            n == v.len(),
            r@ == v@.take(i as int),
    {
        push_char(&mut r, v[i]);
        proof {
            assert(v@.take(i as int).push(v@[i as int]) =~= v@.take(i + 1 as int));
        }
    }
    proof {
        assert(v@.take(n as int) =~= v@);
    }
    r
}

/// The whitespace-delimited words of `cs`.
pub fn split_words(cs: &Vec<char>) -> (r: Vec<Vec<char>>)
    ensures
        r.deep_view() == spec_words(cs@),
{
    let n = cs.len();
    let mut r: Vec<Vec<char>> = Vec::new();
    let mut cur: Vec<char> = Vec::new();
    proof {
        assert(cs@.skip(0) =~= cs@);
        assert(r.deep_view() + words_acc(cs@, Seq::empty()) =~~= words_acc(cs@, Seq::empty()));
    }
    for i in 0..n
        invariant
            n == cs.len(),
            spec_words(cs@) == r.deep_view() + words_acc(cs@.skip(i as int), cur@),
    {
        proof {
            assert(cs@.skip(i as int).drop_first() =~= cs@.skip(i as int + 1));
            assert(cs@.skip(i as int)[0] == cs@[i as int]);
        }
        let c = cs[i];
        if is_space(c) {
            if cur.len() > 0 {
                let ghost r0 = r.deep_view();
                let ghost w = cur@;
                r.push(cur);
                cur = Vec::new();
                proof {
                    assert(r.deep_view() =~~= r0.push(w));
                    assert(words_acc(cs@.skip(i as int), w) == seq![w] + words_acc(
                        cs@.skip(i as int + 1),
                        Seq::empty(),
                    ));
                    assert(r0.push(w) + words_acc(cs@.skip(i as int + 1), cur@) =~~= r0 + (
                    seq![w] + words_acc(cs@.skip(i as int + 1), Seq::empty())));
                    assert(spec_words(cs@) == r.deep_view() + words_acc(
                        cs@.skip(i as int + 1),
                        cur@,
                    ));
                }
            } else {
                proof {
                    assert(cur@ =~= Seq::<char>::empty());
                    assert(words_acc(cs@.skip(i as int), cur@) == words_acc(
                        cs@.skip(i as int + 1),
                        Seq::empty(),
                    ));
                }
            }
        } else {
            let ghost cur0 = cur@;
            cur.push(c);
            proof {
                assert(words_acc(cs@.skip(i as int), cur0) == words_acc(
                    cs@.skip(i as int + 1),
                    cur0.push(c),
                ));
            }
        }
    }
    proof {
        assert(cs@.skip(n as int) =~= Seq::<char>::empty());
    }
    if cur.len() > 0 {
        let ghost r0 = r.deep_view();
        let ghost w = cur@;
        r.push(cur);
        proof {
            assert(r.deep_view() =~~= r0.push(w));
            assert(r0.push(w) =~~= r0 + seq![w]);
        }
    } else {
        proof {
            assert(r.deep_view() + Seq::<Seq<char>>::empty() =~~= r.deep_view());
        }
    }
    r
}

/// Joining a run of words distributes over concatenation of the word lists.
pub proof fn lemma_join_from_append(buf: Seq<char>, u: Seq<Seq<char>>, v: Seq<Seq<char>>)
    ensures
        join_from(buf, u + v) == join_from(join_from(buf, u), v),
    decreases u.len(),
{
    if u.len() == 0 {
        assert(u + v =~~= v);
    } else {
        assert((u + v)[0] == u[0]);
        assert((u + v).drop_first() =~~= u.drop_first() + v);
        lemma_join_from_append(join_push(buf, u[0]), u.drop_first(), v);
    }
}

/// The words of a fragment list grow by the words of an appended fragment.
pub proof fn lemma_frags_words_push(fs: Seq<Seq<char>>, f: Seq<char>)
    ensures
        frags_words(fs.push(f)) == frags_words(fs) + spec_words(f),
    decreases fs.len(),
{
    if fs.len() == 0 {
        assert(fs.push(f)[0] == f);
        assert(fs.push(f).drop_first() =~~= Seq::<Seq<char>>::empty());
        assert(spec_words(f) + frags_words(Seq::empty()) =~~= frags_words(Seq::empty())
            + spec_words(f));
    } else {
        assert(fs.push(f)[0] == fs[0]);
        assert(fs.push(f).drop_first() =~~= fs.drop_first().push(f));
        lemma_frags_words_push(fs.drop_first(), f);
        assert(spec_words(fs[0]) + (frags_words(fs.drop_first()) + spec_words(f)) =~~= (
        spec_words(fs[0]) + frags_words(fs.drop_first())) + spec_words(f));
    }
}

/// Joining a single word is one `join_push` step.
pub proof fn lemma_join_from_one(buf: Seq<char>, w: Seq<char>)
    ensures
        join_from(buf, seq![w]) == join_push(buf, w),
{
    assert(seq![w][0] == w);
    assert(seq![w].drop_first() =~~= Seq::<Seq<char>>::empty());
    assert(join_from(join_push(buf, w), Seq::<Seq<char>>::empty()) == join_push(buf, w));
}

/// Appends `w` to `buf` as `join_push` describes.
fn push_word(buf: &mut Vec<char>, w: &Vec<char>)
    ensures
        final(buf)@ == join_push(old(buf)@, w@),
{
    let mut sep = false;
    if w.len() == 1 {
        let c = w[0];
        sep = c == '.' || c == ',' || c == ':' || c == ';';
    }
    proof {
        if w@.len() == 1 {
            assert(w@ =~= seq![w@[0]]);
        }
        assert(sep == is_sep_word(w@));
    }
    let ghost b0 = buf@;
    if buf.len() > 0 && !sep {
        buf.push(' ');
    }
    let ghost base = buf@;
    let m = w.len();
    for j in 0..m
        invariant
            m == w.len(),
            buf@ == base + w@.take(j as int),
    {
        buf.push(w[j]);
        proof {
            assert(base + w@.take(j as int + 1) =~= (base + w@.take(j as int)).push(
                w@[j as int],
            ));
        }
    }
    proof {
        assert(w@.take(m as int) =~= w@);
        if b0.len() == 0 || is_sep_word(w@) {
            assert(base =~= b0);
            assert(buf@ =~= b0 + w@);
        } else {
            assert(base =~= b0 + seq![' ']);
            assert(buf@ =~= b0 + seq![' '] + w@);
        }
    }
}

/// Appends every character of `src` to `out`.
pub fn append_chars(out: &mut Vec<char>, src: &Vec<char>)
    ensures
        final(out)@ == old(out)@ + src@,
{
    let n = src.len();
    for i in 0..n
        invariant
            n == src.len(),
            out@ == old(out)@ + src@.take(i as int),
    {
        out.push(src[i]);
        proof {
            assert(old(out)@ + src@.take(i as int + 1) =~= (old(out)@ + src@.take(i as int)).push(
                src@[i as int],
            ));
        }
    }
    proof {
        assert(old(out)@ + src@.take(n as int) =~= old(out)@ + src@);
    }
}

/// Joins the words `ws[start..]` onto an empty buffer.
pub fn join_words_range(ws: &Vec<Vec<char>>, start: usize) -> (r: Vec<char>)
    requires
        start <= ws.len(),
    ensures
        r@ == join_from(Seq::empty(), ws.deep_view().skip(start as int)),
{
    let mut buf: Vec<char> = Vec::new();
    let n = ws.len();
    for j in start..n
        invariant
            n == ws.len(),
            start <= j <= n,
            buf@ == join_from(
                Seq::empty(),
                ws.deep_view().subrange(start as int, j as int),
            ),
    {
        proof {
            assert(ws.deep_view()[j as int] == ws@[j as int].deep_view());
            assert(ws@[j as int].deep_view() =~= ws@[j as int]@);
        }
        push_word(&mut buf, &ws[j]);
        proof {
            let dv = ws.deep_view();
            let u = dv.subrange(start as int, j as int);
            let w = dv[j as int];
            assert(dv.subrange(start as int, j as int + 1) =~~= u + seq![w]);
            lemma_join_from_append(Seq::empty(), u, seq![w]);
            lemma_join_from_one(join_from(Seq::empty(), u), w);
        }
    }
    proof {
        assert(ws.deep_view().subrange(start as int, n as int) =~~= ws.deep_view().skip(
            start as int,
        ));
    }
    buf
}

/// Joins the scattered text fragments of a subtree into one canonical string:
/// whitespace runs collapse to single spaces, no space is inserted before a
/// closing punctuation mark, and no whitespace is left at either end.
pub fn join_words(fragments: &Vec<String>) -> (r: String)
    ensures
        r@ == spec_join_words(fragments.deep_view()),
{
    let cs = join_words_chars(fragments);
    string_of(&cs)
}

/// `join_words`, producing the character vector instead of a string.
pub fn join_words_chars(fragments: &Vec<String>) -> (r: Vec<char>)
    ensures
        r@ == spec_join_words(fragments.deep_view()),
{
    let mut buf: Vec<char> = Vec::new();
    let n = fragments.len();
    proof {
        assert(fragments.deep_view().take(0) =~~= Seq::<Seq<char>>::empty());
    }
    for i in 0..n
        invariant
            n == fragments.len(),
            buf@ == join_from(
                Seq::empty(),
                frags_words(fragments.deep_view().take(i as int)),
            ),
    {
        proof {
            assert(fragments.deep_view()[i as int] == fragments@[i as int].deep_view());
        }
        let cs = chars_of(fragments[i].as_str());
        let ws = split_words(&cs);
        let m = ws.len();
        let ghost pre = frags_words(fragments.deep_view().take(i as int));
        let ghost wsv = ws.deep_view();
        for j in 0..m
            invariant
                m == ws.len(),
                wsv == ws.deep_view(),
                buf@ == join_from(Seq::empty(), pre + wsv.take(j as int)),
        {
            proof {
                assert(ws.deep_view()[j as int] == ws@[j as int].deep_view());
                assert(ws@[j as int].deep_view() =~= ws@[j as int]@);
            }
            push_word(&mut buf, &ws[j]);
            proof {
                let u = pre + wsv.take(j as int);
                let w = wsv[j as int];
                assert(pre + wsv.take(j as int + 1) =~~= u + seq![w]);
                lemma_join_from_append(Seq::empty(), u, seq![w]);
                lemma_join_from_one(join_from(Seq::empty(), u), w);
            }
        }
        proof {
            let dv = fragments.deep_view();
            assert(wsv.take(m as int) =~~= wsv);
            lemma_frags_words_push(dv.take(i as int), dv[i as int]);
            assert(dv.take(i as int).push(dv[i as int]) =~~= dv.take(i as int + 1));
            assert(frags_words(dv.take(i as int + 1)) =~~= pre + wsv);
        }
    }
    proof {
        assert(fragments.deep_view().take(n as int) =~~= fragments.deep_view());
    }
    buf
}

/// Whether `a` and `b` hold the same characters.
pub fn eq_chars(a: &Vec<char>, b: &Vec<char>) -> (r: bool)
    ensures
        r == (a@ == b@),
{
    if a.len() != b.len() {
        proof {
            if a@ == b@ {
                assert(a@.len() == b@.len());
            }
        }
        return false;
    }
    let n = a.len();
    for i in 0..n
        invariant
            n == a.len(),
            a.len() == b.len(),
            forall|k: int| 0 <= k < i ==> a@[k] == b@[k],
    {
        if a[i] != b[i] {
            proof {
                if a@ == b@ {
                    assert(a@[i as int] == b@[i as int]);
                }
            }
            return false;
        }
    }
    proof {
        assert(a@ =~= b@);
    }
    true
}

/// `pat` occurs in `s` starting at position `i`.
pub open spec fn contains_at(s: Seq<char>, pat: Seq<char>, i: int) -> bool {
    0 <= i && i + pat.len() <= s.len() && s.subrange(i, i + pat.len()) == pat
}

/// `pat` occurs somewhere in `s`.
pub open spec fn spec_contains(s: Seq<char>, pat: Seq<char>) -> bool {
    exists|i: int| contains_at(s, pat, i)
}

/// Whether `pat` occurs in `s` at position `i`.
pub fn match_at(s: &Vec<char>, pat: &Vec<char>, i: usize) -> (r: bool)
    requires
        i + pat.len() <= s.len(),
    ensures
        r == contains_at(s@, pat@, i as int),
{
    let m = pat.len();
    for j in 0..m
        invariant
            m == pat.len(),
            i + m <= s.len(),
            forall|k: int| 0 <= k < j ==> s@[i + k] == pat@[k],
    {
        if s[i + j] != pat[j] {
            proof {
                if contains_at(s@, pat@, i as int) {
                    assert(s@.subrange(i as int, i + pat@.len())[j as int] == pat@[j as int]);
                }
            }
            return false;
        }
    }
    proof {
        assert(s@.subrange(i as int, i + pat@.len()) =~= pat@);
    }
    true
}

/// Whether `pat` occurs anywhere in `s`.
pub fn contains_chars(s: &Vec<char>, pat: &Vec<char>) -> (r: bool)
    ensures
        r == spec_contains(s@, pat@),
{
    if pat.len() == 0 {
        proof {
            assert(s@.subrange(0, 0) =~= pat@);
            assert(contains_at(s@, pat@, 0));
        }
        return true;
    }
    if pat.len() > s.len() {
        proof {
            assert(forall|i: int| !contains_at(s@, pat@, i));
        }
        return false;
    }
    let bound = s.len() - pat.len();
    let mut i: usize = 0;
    while i <= bound
        invariant
            pat@.len() >= 1,
            pat.len() <= s.len(),
            bound == s.len() - pat.len(),
            i <= bound + 1,
            forall|k: int| 0 <= k < i ==> !contains_at(s@, pat@, k),
        decreases bound + 1 - i,
    {
        if match_at(s, pat, i) {
            return true;
        }
        i = i + 1;
    }
    proof {
        assert(forall|k: int| contains_at(s@, pat@, k) ==> 0 <= k <= bound as int);
    }
    false
}

/// Some fragment of `frags` contains `pat`.
pub open spec fn spec_any_contains(frags: Seq<Seq<char>>, pat: Seq<char>) -> bool {
    exists|k: int| 0 <= k < frags.len() && spec_contains(frags[k], pat)
}

/// Whether any fragment contains `pat`.
pub fn any_frag_contains(frags: &Vec<String>, pat: &Vec<char>) -> (r: bool)
    ensures
        r == spec_any_contains(frags.deep_view(), pat@),
{
    let n = frags.len();
    for k in 0..n
        invariant
            n == frags.len(),
            forall|j: int| 0 <= j < k ==> !spec_contains(frags.deep_view()[j], pat@),
    {
        proof {
            assert(frags.deep_view()[k as int] == frags@[k as int].deep_view());
        }
        let cs = chars_of(frags[k].as_str());
        if contains_chars(&cs, pat) {
            return true;
        }
    }
    false
}

/// `s` with every apostrophe removed.
pub open spec fn spec_strip_quotes(s: Seq<char>) -> Seq<char>
    decreases s.len(),
{
    if s.len() == 0 {
        Seq::empty()
    } else if s[0] == '\'' {
        spec_strip_quotes(s.drop_first())
    } else {
        seq![s[0]] + spec_strip_quotes(s.drop_first())
    }
}

/// Removes every apostrophe from `v`.
pub fn strip_quotes(v: &Vec<char>) -> (r: Vec<char>)
    ensures
        r@ == spec_strip_quotes(v@),
{
    let n = v.len();
    let mut r: Vec<char> = Vec::new();
    proof {
        assert(v@.skip(0) =~= v@);
        assert(r@ + spec_strip_quotes(v@) =~= spec_strip_quotes(v@));
    }
    for i in 0..n
        invariant
            n == v.len(),
            spec_strip_quotes(v@) == r@ + spec_strip_quotes(v@.skip(i as int)),
    {
        proof {
            assert(v@.skip(i as int).drop_first() =~= v@.skip(i as int + 1));
            assert(v@.skip(i as int)[0] == v@[i as int]);
        }
        let c = v[i];
        if c != '\'' {
            let ghost r0 = r@;
            r.push(c);
            proof {
                assert(r@ + spec_strip_quotes(v@.skip(i as int + 1)) =~= r0 + (seq![c]
                    + spec_strip_quotes(v@.skip(i as int + 1))));
            }
        }
    }
    proof {
        assert(v@.skip(n as int) =~= Seq::<char>::empty());
        assert(r@ + Seq::<char>::empty() =~= r@);
    }
    r
}

/// `s` without leading whitespace.
pub open spec fn spec_trim_start(s: Seq<char>) -> Seq<char>
    decreases s.len(),
{
    if s.len() == 0 {
        Seq::empty()
    } else if is_space_char(s[0]) {
        spec_trim_start(s.drop_first())
    } else {
        s
    }
}

/// `s` without trailing whitespace.
pub open spec fn spec_trim_end(s: Seq<char>) -> Seq<char>
    decreases s.len(),
{
    if s.len() == 0 {
        Seq::empty()
    } else if is_space_char(s.last()) {
        spec_trim_end(s.drop_last())
    } else {
        s
    }
}

/// `s` without whitespace at either end.
pub open spec fn spec_trim(s: Seq<char>) -> Seq<char> {
    spec_trim_end(spec_trim_start(s))
}

/// Removes trailing whitespace.
pub fn trim_end_chars(v: &Vec<char>) -> (r: Vec<char>)
    ensures
        r@ == spec_trim_end(v@),
{
    let mut j = v.len();
    proof {
        assert(v@.take(j as int) =~= v@);
    }
    while j > 0 && is_space(v[j - 1])
        invariant
            j <= v.len(),
            spec_trim_end(v@) == spec_trim_end(v@.take(j as int)),
        decreases j,
    {
        proof {
            assert(v@.take(j as int).drop_last() =~= v@.take(j as int - 1));
            assert(v@.take(j as int).last() == v@[j as int - 1]);
        }
        j = j - 1;
    }
    let mut r: Vec<char> = Vec::new();
    for i in 0..j
        invariant
            j <= v.len(),
            r@ == v@.take(i as int),
    {
        r.push(v[i]);
        proof {
            assert(v@.take(i as int).push(v@[i as int]) =~= v@.take(i as int + 1));
        }
    }
    proof {
        if j > 0 {
            assert(v@.take(j as int).last() == v@[j as int - 1]);
            assert(spec_trim_end(v@.take(j as int)) == v@.take(j as int));
        } else {
            assert(v@.take(0) =~= Seq::<char>::empty());
        }
    }
    r
}

/// Removes leading whitespace.
pub fn trim_start_chars(v: &Vec<char>) -> (r: Vec<char>)
    ensures
        r@ == spec_trim_start(v@),
{
    let mut i: usize = 0;
    let n = v.len();
    proof {
        assert(v@.skip(0) =~= v@);
    }
    while i < n && is_space(v[i])
        invariant
            n == v.len(),
            i <= n,
            spec_trim_start(v@) == spec_trim_start(v@.skip(i as int)),
        decreases n - i,
    {
        proof {
            assert(v@.skip(i as int).drop_first() =~= v@.skip(i as int + 1));
            assert(v@.skip(i as int)[0] == v@[i as int]);
        }
        i = i + 1;
    }
    let mut r: Vec<char> = Vec::new();
    for k in i..n
        invariant
            n == v.len(),
            i <= k <= n,
            r@ == v@.subrange(i as int, k as int),
    {
        r.push(v[k]);
        proof {
            assert(v@.subrange(i as int, k as int).push(v@[k as int]) =~= v@.subrange(
                i as int,
                k as int + 1,
            ));
        }
    }
    proof {
        assert(v@.subrange(i as int, n as int) =~= v@.skip(i as int));
        if i < n {
            assert(v@.skip(i as int)[0] == v@[i as int]);
            assert(spec_trim_start(v@.skip(i as int)) == v@.skip(i as int));
        } else {
            assert(v@.skip(n as int) =~= Seq::<char>::empty());
        }
    }
    r
}

/// Removes whitespace at both ends.
pub fn trim_chars(v: &Vec<char>) -> (r: Vec<char>)
    ensures
        r@ == spec_trim(v@),
{
    let t = trim_start_chars(v);
    trim_end_chars(&t)
}

/// `s` with every occurrence of `pat` replaced by `to`, scanning left to right.
pub open spec fn spec_replace(s: Seq<char>, pat: Seq<char>, to: Seq<char>) -> Seq<char>
    decreases s.len(),
{
    if pat.len() == 0 || s.len() == 0 {
        s
    } else if contains_at(s, pat, 0) {
        to + spec_replace(s.skip(pat.len() as int), pat, to)
    } else {
        seq![s[0]] + spec_replace(s.drop_first(), pat, to)
    }
}

/// Replaces every occurrence of `pat` in `v` by `to`, scanning left to right.
pub fn replace_chars(v: &Vec<char>, pat: &Vec<char>, to: &Vec<char>) -> (r: Vec<char>)
    requires
        pat.len() > 0,
    ensures
        r@ == spec_replace(v@, pat@, to@),
{
    let n = v.len();
    let mut r: Vec<char> = Vec::new();
    let mut i: usize = 0;
    proof {
        assert(v@.skip(0) =~= v@);
        assert(r@ + spec_replace(v@, pat@, to@) =~= spec_replace(v@, pat@, to@));
    }
    while i < n
        invariant
            n == v.len(),
            i <= n,
            pat@.len() > 0,
            spec_replace(v@, pat@, to@) == r@ + spec_replace(v@.skip(i as int), pat@, to@),
        decreases n - i,
    {
        let ghost tail = v@.skip(i as int);
        proof {
            assert(tail.drop_first() =~= v@.skip(i as int + 1));
            assert(tail[0] == v@[i as int]);
        }
        if pat.len() <= n - i && match_at(v, pat, i) {
            proof {
                assert(tail.subrange(0, pat@.len() as int) =~= v@.subrange(
                    i as int,
                    i + pat@.len(),
                ));
                assert(contains_at(tail, pat@, 0));
                assert(tail.skip(pat@.len() as int) =~= v@.skip(i + pat@.len()));
            }
            let ghost r0 = r@;
            append_chars(&mut r, to);
            proof {
                assert(r@ + spec_replace(v@.skip(i + pat@.len()), pat@, to@) =~= r0 + (to@
                    + spec_replace(v@.skip(i + pat@.len()), pat@, to@)));
            }
            i = i + pat.len();
        } else {
            proof {
                if contains_at(tail, pat@, 0) {
                    assert(tail.subrange(0, pat@.len() as int) =~= v@.subrange(
                        i as int,
                        i + pat@.len(),
                    ));
                    assert(contains_at(v@, pat@, i as int));
                }
            }
            let ghost r0 = r@;
            r.push(v[i]);
            proof {
                assert(r@ + spec_replace(v@.skip(i as int + 1), pat@, to@) =~= r0 + (seq![
                    v@[i as int]
                ] + spec_replace(v@.skip(i as int + 1), pat@, to@)));
            }
            i = i + 1;
        }
    }
    proof {
        assert(v@.skip(n as int) =~= Seq::<char>::empty());
        assert(r@ + Seq::<char>::empty() =~= r@);
    }
    r
}

/// Lexicographic order on character sequences, by code point.
pub open spec fn lex_le(a: Seq<char>, b: Seq<char>) -> bool
    decreases a.len(),
{
    if a.len() == 0 {
        true
    } else if b.len() == 0 {
        false
    } else if a[0] == b[0] {
        lex_le(a.drop_first(), b.drop_first())
    } else {
        (a[0] as u32) < (b[0] as u32)
    }
}

/// Whether `a` is lexicographically at most `b`.
pub fn lex_le_chars(a: &Vec<char>, b: &Vec<char>) -> (r: bool)
    ensures
        r == lex_le(a@, b@),
{
    let n = if a.len() < b.len() {
        a.len()
    } else {
        b.len()
    };
    proof {
        assert(a@.skip(0) =~= a@);
        assert(b@.skip(0) =~= b@);
    }
    for i in 0..n
        invariant
            n <= a.len(),
            n <= b.len(),
            lex_le(a@, b@) == lex_le(a@.skip(i as int), b@.skip(i as int)),
    {
        proof {
            assert(a@.skip(i as int).drop_first() =~= a@.skip(i as int + 1));
            assert(b@.skip(i as int).drop_first() =~= b@.skip(i as int + 1));
            assert(a@.skip(i as int)[0] == a@[i as int]);
            assert(b@.skip(i as int)[0] == b@[i as int]);
        }
        if a[i] != b[i] {
            return (a[i] as u32) < (b[i] as u32);
        }
    }
    proof {
        if a@.len() <= b@.len() {
            assert(a@.skip(n as int) =~= Seq::<char>::empty());
        } else {
            assert(b@.skip(n as int) =~= Seq::<char>::empty());
            assert(a@.skip(n as int).len() > 0);
        }
    }
    a.len() <= b.len()
}

/// `x` inserted before the first element it is lexicographically at most.
pub open spec fn sorted_insert(ws: Seq<Seq<char>>, x: Seq<char>) -> Seq<Seq<char>>
    decreases ws.len(),
{
    if ws.len() == 0 {
        seq![x]
    } else if lex_le(x, ws[0]) {
        seq![x] + ws
    } else {
        seq![ws[0]] + sorted_insert(ws.drop_first(), x)
    }
}

/// Insertion sort of `ws`, front to back, onto `acc`.
pub open spec fn sort_from(acc: Seq<Seq<char>>, ws: Seq<Seq<char>>) -> Seq<Seq<char>>
    decreases ws.len(),
{
    if ws.len() == 0 {
        acc
    } else {
        sort_from(sorted_insert(acc, ws[0]), ws.drop_first())
    }
}

/// The lexicographically sorted arrangement of `ws`.
pub open spec fn spec_sort(ws: Seq<Seq<char>>) -> Seq<Seq<char>> {
    sort_from(Seq::empty(), ws)
}

/// Inserts `x` into `v` as `sorted_insert` describes.
fn insert_sorted(v: &Vec<String>, x: String) -> (r: Vec<String>)
    ensures
        r.deep_view() == sorted_insert(v.deep_view(), x@),
{
    let xc = chars_of(x.as_str());
    let n = v.len();
    let mut out: Vec<String> = Vec::new();
    let mut i: usize = 0;
    proof {
        assert(v.deep_view().skip(0) =~~= v.deep_view());
        assert(out.deep_view() + sorted_insert(v.deep_view(), x@) =~~= sorted_insert(
            v.deep_view(),
            x@,
        ));
    }
    let mut placed = false;
    while i < n
        invariant
            n == v.len(),
            i <= n,
            xc@ == x@,
            !placed ==> sorted_insert(v.deep_view(), x@) == out.deep_view() + sorted_insert(
                v.deep_view().skip(i as int),
                x@,
            ),
            placed ==> sorted_insert(v.deep_view(), x@) == out.deep_view() + v.deep_view().skip(
                i as int,
            ),
        decreases n - i,
    {
        let ghost tail = v.deep_view().skip(i as int);
        proof {
            assert(tail.drop_first() =~~= v.deep_view().skip(i as int + 1));
            assert(tail[0] == v.deep_view()[i as int]);
            assert(v.deep_view()[i as int] == v@[i as int].deep_view());
        }
        if !placed {
            let vc = chars_of(v[i].as_str());
            if lex_le_chars(&xc, &vc) {
                let ghost o0 = out.deep_view();
                out.push(string_of(&xc));
                out.push(v[i].clone());
                i = i + 1;
                placed = true;
                proof {
                    assert(out.deep_view() =~~= o0.push(x@).push(tail[0]));
                    assert(sorted_insert(tail, x@) == seq![x@] + tail);
                    assert(o0.push(x@).push(tail[0]) + tail.drop_first() =~~= o0 + (seq![x@]
                        + tail));
                }
            } else {
                let ghost o0 = out.deep_view();
                out.push(v[i].clone());
                i = i + 1;
                proof {
                    assert(out.deep_view() =~~= o0.push(tail[0]));
                    assert(o0.push(tail[0]) + sorted_insert(tail.drop_first(), x@) =~~= o0 + (
                    seq![tail[0]] + sorted_insert(tail.drop_first(), x@)));
                }
            }
        } else {
            let ghost o0 = out.deep_view();
            out.push(v[i].clone());
            i = i + 1;
            proof {
                assert(out.deep_view() =~~= o0.push(tail[0]));
                assert(o0.push(tail[0]) + tail.drop_first() =~~= o0 + tail);
            }
        }
    }
    if !placed {
        let ghost o0 = out.deep_view();
        out.push(string_of(&xc));
        proof {
            assert(v.deep_view().skip(n as int) =~~= Seq::<Seq<char>>::empty());
            assert(out.deep_view() =~~= o0.push(x@));
            assert(o0.push(x@) =~~= o0 + seq![x@]);
        }
    } else {
        proof {
            assert(v.deep_view().skip(n as int) =~~= Seq::<Seq<char>>::empty());
            assert(out.deep_view() + Seq::<Seq<char>>::empty() =~~= out.deep_view());
        }
    }
    out
}

/// Sorts `v` lexicographically, as `spec_sort` describes.
pub fn sort_strings(v: &Vec<String>) -> (r: Vec<String>)
    ensures
        r.deep_view() == spec_sort(v.deep_view()),
{
    let n = v.len();
    let mut acc: Vec<String> = Vec::new();
    proof {
        assert(v.deep_view().skip(0) =~~= v.deep_view());
    }
    for i in 0..n
        invariant
            n == v.len(),
            spec_sort(v.deep_view()) == sort_from(acc.deep_view(), v.deep_view().skip(i as int)),
    {
        let ghost tail = v.deep_view().skip(i as int);
        proof {
            assert(tail.drop_first() =~~= v.deep_view().skip(i as int + 1));
            assert(tail[0] == v.deep_view()[i as int]);
            assert(v.deep_view()[i as int] == v@[i as int].deep_view());
        }
        acc = insert_sorted(&acc, v[i].clone());
    }
    proof {
        assert(v.deep_view().skip(n as int) =~~= Seq::<Seq<char>>::empty());
    }
    acc
}

/// No character of `w` is whitespace.
pub open spec fn no_space(w: Seq<char>) -> bool {
    forall|i: int| 0 <= i < w.len() ==> !is_space_char(w[i])
}

/// A word: non-empty and free of whitespace.
pub open spec fn is_word(w: Seq<char>) -> bool {
    w.len() > 0 && no_space(w)
}

/// Every element is a word.
pub open spec fn all_word_seq(ws: Seq<Seq<char>>) -> bool {
    forall|i: int| 0 <= i < ws.len() ==> is_word(ws[i])
}

/// The unfinished word left after scanning `s` with accumulator `cur`.
pub open spec fn pending(s: Seq<char>, cur: Seq<char>) -> Seq<char>
    decreases s.len(),
{
    if s.len() == 0 {
        cur
    } else if is_space_char(s[0]) {
        pending(s.drop_first(), Seq::empty())
    } else {
        pending(s.drop_first(), cur.push(s[0]))
    }
}

/// A non-empty pending word means the word list is non-empty.
proof fn lemma_pending_words_len(s: Seq<char>, cur: Seq<char>)
    requires
        pending(s, cur).len() > 0,
    ensures
        words_acc(s, cur).len() > 0,
    decreases s.len(),
{
    if s.len() == 0 {
    } else if is_space_char(s[0]) {
        lemma_pending_words_len(s.drop_first(), Seq::empty());
    } else {
        lemma_pending_words_len(s.drop_first(), cur.push(s[0]));
    }
}

/// Scanning only word characters yields the one word `cur + w`.
proof fn lemma_words_acc_word(w: Seq<char>, cur: Seq<char>)
    requires
        no_space(w),
        cur.len() + w.len() > 0,
    ensures
        words_acc(w, cur) == seq![cur + w],
    decreases w.len(),
{
    if w.len() == 0 {
        assert(cur + w =~= cur);
    } else {
        assert(no_space(w.drop_first())) by {
            assert(forall|i: int|
                0 <= i < w.drop_first().len() ==> w.drop_first()[i] == w[i + 1]);
        }
        lemma_words_acc_word(w.drop_first(), cur.push(w[0]));
        assert(cur.push(w[0]) + w.drop_first() =~= cur + w);
    }
}

/// A space and then a word append exactly that word to the word list.
proof fn lemma_words_append_word(u: Seq<char>, w: Seq<char>, cur: Seq<char>)
    requires
        is_word(w),
    ensures
        words_acc(u + seq![' '] + w, cur) == words_acc(u, cur) + seq![w],
    decreases u.len(),
{
    if u.len() == 0 {
        assert(u + seq![' '] + w =~= seq![' '] + w);
        assert((seq![' '] + w)[0] == ' ');
        assert((seq![' '] + w).drop_first() =~= w);
        lemma_words_acc_word(w, Seq::empty());
        assert(Seq::<char>::empty() + w =~= w);
        if cur.len() == 0 {
            assert(words_acc(u, cur) + seq![w] =~~= seq![w]);
        } else {
            assert(seq![cur] + seq![w] =~~= words_acc(u, cur) + seq![w]);
        }
    } else {
        assert((u + seq![' '] + w)[0] == u[0]);
        assert((u + seq![' '] + w).drop_first() =~= u.drop_first() + seq![' '] + w);
        if is_space_char(u[0]) {
            if cur.len() == 0 {
                lemma_words_append_word(u.drop_first(), w, Seq::empty());
            } else {
                lemma_words_append_word(u.drop_first(), w, Seq::empty());
                assert(seq![cur] + (words_acc(u.drop_first(), Seq::empty()) + seq![w]) =~~= (
                seq![cur] + words_acc(u.drop_first(), Seq::empty())) + seq![w]);
            }
        } else {
            lemma_words_append_word(u.drop_first(), w, cur.push(u[0]));
        }
    }
}

/// Word characters appended with no space extend the last word.
proof fn lemma_words_glue(u: Seq<char>, w: Seq<char>, cur: Seq<char>)
    requires
        w.len() > 0,
        no_space(w),
        pending(u, cur).len() > 0,
    ensures
        words_acc(u + w, cur) == words_acc(u, cur).drop_last().push(pending(u, cur) + w),
    decreases u.len(),
{
    if u.len() == 0 {
        assert(u + w =~= w);
        lemma_words_acc_word(w, cur);
        assert(words_acc(u, cur) == seq![cur]);
        assert(seq![cur].drop_last().push(cur + w) =~~= seq![cur + w]);
    } else {
        assert((u + w)[0] == u[0]);
        assert((u + w).drop_first() =~= u.drop_first() + w);
        if is_space_char(u[0]) {
            lemma_words_glue(u.drop_first(), w, Seq::empty());
            lemma_pending_words_len(u.drop_first(), Seq::empty());
            let y = words_acc(u.drop_first(), Seq::empty());
            let z = pending(u.drop_first(), Seq::empty()) + w;
            if cur.len() == 0 {
            } else {
                assert(seq![cur] + y.drop_last().push(z) =~~= (seq![cur] + y).drop_last().push(
                    z,
                ));
            }
        } else {
            lemma_words_glue(u.drop_first(), w, cur.push(u[0]));
        }
    }
}

/// Scanning a concatenation scans the second part from the first's pending
/// word.
proof fn lemma_pending_append(u: Seq<char>, v: Seq<char>, cur: Seq<char>)
    ensures
        pending(u + v, cur) == pending(v, pending(u, cur)),
    decreases u.len(),
{
    if u.len() == 0 {
        assert(u + v =~= v);
    } else {
        assert((u + v)[0] == u[0]);
        assert((u + v).drop_first() =~= u.drop_first() + v);
        if is_space_char(u[0]) {
            lemma_pending_append(u.drop_first(), v, Seq::empty());
        } else {
            lemma_pending_append(u.drop_first(), v, cur.push(u[0]));
        }
    }
}

/// The pending word of whitespace-free text is the accumulator plus it.
proof fn lemma_pending_no_space(v: Seq<char>, cur: Seq<char>)
    requires
        no_space(v),
    ensures
        pending(v, cur) == cur + v,
    decreases v.len(),
{
    if v.len() == 0 {
        assert(cur + v =~= cur);
    } else {
        assert(no_space(v.drop_first())) by {
            assert(forall|i: int|
                0 <= i < v.drop_first().len() ==> v.drop_first()[i] == v[i + 1]);
        }
        lemma_pending_no_space(v.drop_first(), cur.push(v[0]));
        assert(cur.push(v[0]) + v.drop_first() =~= cur + v);
    }
}

/// Joining never shortens the buffer.
proof fn lemma_join_from_len(buf: Seq<char>, ws: Seq<Seq<char>>)
    ensures
        join_from(buf, ws).len() >= buf.len(),
    decreases ws.len(),
{
    if ws.len() > 0 {
        lemma_join_from_len(join_push(buf, ws[0]), ws.drop_first());
    }
}

/// Every produced word is non-empty and whitespace-free.
proof fn lemma_words_acc_all_words(s: Seq<char>, cur: Seq<char>)
    requires
        no_space(cur),
    ensures
        all_word_seq(words_acc(s, cur)),
    decreases s.len(),
{
    if s.len() == 0 {
    } else if is_space_char(s[0]) {
        lemma_words_acc_all_words(s.drop_first(), Seq::empty());
        if cur.len() > 0 {
            let rest = words_acc(s.drop_first(), Seq::empty());
            assert(forall|i: int|
                0 <= i < (seq![cur] + rest).len() ==> (seq![cur] + rest)[i] == (if i == 0 {
                    cur
                } else {
                    rest[i - 1]
                }));
        }
    } else {
        assert(no_space(cur.push(s[0]))) by {
            assert(forall|i: int|
                0 <= i < cur.len() ==> cur.push(s[0])[i] == cur[i]);
            assert(cur.push(s[0])[cur.len() as int] == s[0]);
        }
        lemma_words_acc_all_words(s.drop_first(), cur.push(s[0]));
    }
}

/// Every word of every fragment is non-empty and whitespace-free.
proof fn lemma_frags_words_all_words(frags: Seq<Seq<char>>)
    ensures
        all_word_seq(frags_words(frags)),
    decreases frags.len(),
{
    if frags.len() > 0 {
        lemma_words_acc_all_words(frags[0], Seq::empty());
        lemma_frags_words_all_words(frags.drop_first());
        let a = spec_words(frags[0]);
        let b = frags_words(frags.drop_first());
        assert(forall|i: int|
            0 <= i < (a + b).len() ==> (a + b)[i] == (if i < a.len() {
                a[i]
            } else {
                b[i - a.len()]
            }));
    }
}

/// Joining a list of words yields a string whose words rejoin to itself,
/// whose last word is its pending accumulator, and whose later words are
/// never bare punctuation.
proof fn lemma_join_normal(ws: Seq<Seq<char>>)
    requires
        all_word_seq(ws),
    ensures
        join_from(Seq::empty(), spec_words(join_from(Seq::empty(), ws))) == join_from(
            Seq::empty(),
            ws,
        ),
        all_word_seq(spec_words(join_from(Seq::empty(), ws))),
        join_from(Seq::empty(), ws).len() > 0 ==> spec_words(join_from(Seq::empty(), ws)).len()
            > 0 && spec_words(join_from(Seq::empty(), ws)).last() == pending(
            join_from(Seq::empty(), ws),
            Seq::empty(),
        ),
        forall|i: int|
            1 <= i < spec_words(join_from(Seq::empty(), ws)).len() ==> !is_sep_word(
                spec_words(join_from(Seq::empty(), ws))[i],
            ),
    decreases ws.len(),
{
    if ws.len() == 0 {
        assert(join_from(Seq::empty(), ws) =~= Seq::<char>::empty());
    } else {
        let ws0 = ws.drop_last();
        let w = ws.last();
        assert(all_word_seq(ws0)) by {
            assert(forall|i: int| 0 <= i < ws0.len() ==> ws0[i] == ws[i]);
        }
        lemma_join_normal(ws0);
        let b0 = join_from(Seq::empty(), ws0);
        let b = join_from(Seq::empty(), ws);
        assert(ws =~~= ws0 + seq![w]);
        lemma_join_from_append(Seq::empty(), ws0, seq![w]);
        lemma_join_from_one(b0, w);
        assert(b == join_push(b0, w));
        assert(is_word(w));
        if b0.len() == 0 {
            assert(b =~= w);
            lemma_words_acc_word(w, Seq::empty());
            assert(Seq::<char>::empty() + w =~= w);
            assert(spec_words(b) == seq![w]);
            lemma_join_from_one(Seq::empty(), w);
            assert(join_push(Seq::empty(), w) =~= w);
            lemma_pending_no_space(w, Seq::empty());
            assert(pending(b, Seq::empty()) == Seq::<char>::empty() + w);
        } else {
            let x = spec_words(b0);
            let lw = x.last();
            let p0 = pending(b0, Seq::empty());
            assert(x.len() > 0 && lw == p0);
            assert(is_word(lw));
            let y = x.drop_last();
            assert(x =~~= y + seq![lw]);
            lemma_join_from_append(Seq::empty(), y, seq![lw]);
            lemma_join_from_one(join_from(Seq::empty(), y), lw);
            let jy = join_from(Seq::empty(), y);
            assert(b0 == join_push(jy, lw));
            if !is_sep_word(w) {
                assert(b =~= b0 + seq![' '] + w);
                lemma_words_append_word(b0, w, Seq::empty());
                assert(spec_words(b) == spec_words(b0) + seq![w]);
                assert(spec_words(b) =~~= x.push(w));
                lemma_join_from_append(Seq::empty(), x, seq![w]);
                lemma_join_from_one(b0, w);
                assert(join_from(Seq::empty(), spec_words(b)) == join_push(b0, w));
                lemma_pending_append(b0 + seq![' '], w, Seq::empty());
                assert(b =~= (b0 + seq![' ']) + w);
                lemma_pending_append(b0, seq![' '], Seq::empty());
                assert(seq![' '][0] == ' ');
                assert(seq![' '].drop_first() =~= Seq::<char>::empty());
                assert(pending(Seq::<char>::empty(), Seq::<char>::empty())
                    == Seq::<char>::empty());
                assert(pending(seq![' '], p0) == Seq::<char>::empty());
                lemma_pending_no_space(w, Seq::empty());
                assert(pending(b, Seq::empty()) == Seq::<char>::empty() + w);
                assert(Seq::<char>::empty() + w =~= w);
                assert(spec_words(b).last() == w);
                assert(all_word_seq(spec_words(b))) by {
                    assert(forall|i: int|
                        0 <= i < x.len() ==> spec_words(b)[i] == x[i]);
                    assert(spec_words(b)[x.len() as int] == w);
                }
                assert(forall|i: int|
                    1 <= i < spec_words(b).len() ==> !is_sep_word(spec_words(b)[i])) by {
                    assert(forall|i: int|
                        0 <= i < x.len() ==> spec_words(b)[i] == x[i]);
                    assert(spec_words(b)[x.len() as int] == w);
                }
            } else {
                assert(w.len() == 1 && !is_space_char(w[0])) by {
                    assert(seq!['.'].len() == 1 && seq![','].len() == 1 && seq![':'].len() == 1
                        && seq![';'].len() == 1);
                }
                assert(b =~= b0 + w);
                assert(p0.len() > 0);
                lemma_words_glue(b0, w, Seq::empty());
                assert(spec_words(b) == y.push(lw + w));
                lemma_join_from_append(Seq::empty(), y, seq![lw + w]);
                lemma_join_from_one(jy, lw + w);
                assert(spec_words(b) =~~= y + seq![lw + w]);
                assert(join_from(Seq::empty(), spec_words(b)) == join_push(jy, lw + w));
                assert((lw + w).len() >= 2);
                assert(!is_sep_word(lw + w)) by {
                    assert(seq!['.'].len() == 1 && seq![','].len() == 1 && seq![':'].len() == 1
                        && seq![';'].len() == 1);
                }
                if y.len() == 0 {
                    assert(jy =~= Seq::<char>::empty());
                    assert(b0 =~= lw);
                    assert(join_push(jy, lw + w) =~= lw + w);
                    assert(b =~= lw + w);
                } else {
                    assert(is_word(y[0])) by {
                        assert(y[0] == x[0]);
                    }
                    assert(jy.len() > 0) by {
                        assert(y =~~= seq![y[0]] + y.drop_first());
                        lemma_join_from_append(Seq::empty(), seq![y[0]], y.drop_first());
                        lemma_join_from_one(Seq::empty(), y[0]);
                        assert(join_push(Seq::empty(), y[0]) =~= y[0]);
                        lemma_join_from_len(y[0], y.drop_first());
                    }
                    assert(!is_sep_word(lw)) by {
                        assert(x[x.len() - 1] == lw);
                    }
                    assert(b0 =~= jy + seq![' '] + lw);
                    assert(join_push(jy, lw + w) =~= jy + seq![' '] + (lw + w));
                    assert(b =~= jy + seq![' '] + (lw + w));
                }
                lemma_pending_append(b0, w, Seq::empty());
                lemma_pending_no_space(w, p0);
                assert(pending(b, Seq::empty()) == p0 + w);
                assert(spec_words(b).last() == lw + w);
                assert(all_word_seq(spec_words(b))) by {
                    assert(forall|i: int|
                        0 <= i < y.len() ==> spec_words(b)[i] == y[i] && y[i] == x[i]);
                    assert(spec_words(b)[y.len() as int] == lw + w);
                    assert(is_word(lw + w)) by {
                        assert(forall|i: int|
                            0 <= i < lw.len() ==> (lw + w)[i] == lw[i]);
                        assert((lw + w)[lw.len() as int] == w[0]);
                    }
                }
                assert(forall|i: int|
                    1 <= i < spec_words(b).len() ==> !is_sep_word(spec_words(b)[i])) by {
                    assert(forall|i: int|
                        0 <= i < y.len() ==> spec_words(b)[i] == y[i] && y[i] == x[i]);
                    assert(spec_words(b)[y.len() as int] == lw + w);
                }
            }
        }
    }
}

/// The text normalizer is idempotent: normalizing an already-normalized
/// string returns it unchanged, for every fragment sequence.
pub proof fn lemma_join_words_idempotent(frags: Seq<Seq<char>>)
    ensures
        spec_join_words(seq![spec_join_words(frags)]) == spec_join_words(frags),
{
    lemma_frags_words_all_words(frags);
    lemma_join_normal(frags_words(frags));
    let b = spec_join_words(frags);
    assert(seq![b][0] == b);
    assert(seq![b].drop_first() =~~= Seq::<Seq<char>>::empty());
    assert(frags_words(seq![b]) == spec_words(b) + frags_words(Seq::empty()));
    assert(spec_words(b) + frags_words(Seq::empty()) =~~= spec_words(b));
}

} // verus!
