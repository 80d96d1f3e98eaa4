//! Character-sequence model of the wire text: splitting at CRLF separators,
//! joining segments back, and the facts relating the two.

use vstd::prelude::*;

verus! {

// ===== CRLF separators =====

/// The two-character line separator.
pub open spec fn crlf() -> Seq<char> {
    seq!['\r', '\n']
}

/// A CRLF pair starts at position `i` of `s`.
pub open spec fn crlf_at(s: Seq<char>, i: int) -> bool {
    0 <= i && i + 2 <= s.len() && s[i] == '\r' && s[i + 1] == '\n'
}

/// `s` contains no CRLF pair.
pub open spec fn crlf_free(s: Seq<char>) -> bool {
    forall|i: int| !crlf_at(s, i)
}

/// Split `s` at every CRLF pair, keeping empty segments.
/// Mirrors `str::split` with a CRLF pattern: there is always at least one
/// segment, and a trailing separator produces a trailing empty segment.
pub open spec fn split_crlf(s: Seq<char>) -> Seq<Seq<char>>
    decreases s.len(),
{
    if s.len() < 2 {
        seq![s]
    } else if s[0] == '\r' && s[1] == '\n' {
        seq![Seq::<char>::empty()] + split_crlf(s.skip(2))
    } else {
        let rest = split_crlf(s.drop_first());
        rest.update(0, seq![s[0]] + rest[0])
    }
}

/// Join segments, writing a CRLF between every two neighbours.
pub open spec fn join_crlf(parts: Seq<Seq<char>>) -> Seq<char>
    decreases parts.len(),
{
    if parts.len() == 0 {
        Seq::<char>::empty()
    } else if parts.len() == 1 {
        parts[0]
    } else {
        parts[0] + crlf() + join_crlf(parts.drop_first())
    }
}

pub proof fn lemma_split_crlf_len(s: Seq<char>)
    ensures
        split_crlf(s).len() >= 1,
    decreases s.len(),
{
    if s.len() < 2 {
    } else if s[0] == '\r' && s[1] == '\n' {
    } else {
        lemma_split_crlf_len(s.drop_first());
    }
}

/// Splitting at a CRLF pair in front.
pub proof fn lemma_split_crlf_pair(s: Seq<char>)
    requires
        crlf_at(s, 0),
    ensures
        split_crlf(s) == seq![Seq::<char>::empty()] + split_crlf(s.skip(2)),
{
}

/// Peeling one non-separator character off the front of the first segment.
pub proof fn lemma_split_crlf_step(s: Seq<char>)
    requires
        s.len() >= 1,
        !crlf_at(s, 0),
    ensures
        split_crlf(s) == split_crlf(s.drop_first()).update(
            0,
            seq![s[0]] + split_crlf(s.drop_first())[0],
        ),
{
    if s.len() == 1 {
        assert(s.drop_first() =~= Seq::<char>::empty());
        assert(split_crlf(s.drop_first()) == seq![Seq::<char>::empty()]);
        assert(seq![s[0]] + Seq::<char>::empty() =~= s);
        assert(split_crlf(s.drop_first()).update(
            0,
            seq![s[0]] + split_crlf(s.drop_first())[0],
        ) =~~= seq![s]);
    } else {
        assert(!(s[0] == '\r' && s[1] == '\n'));
    }
}

/// Joining undoes splitting.
pub proof fn lemma_join_split_crlf(s: Seq<char>)
    ensures
        join_crlf(split_crlf(s)) == s,
    decreases s.len(),
{
    if s.len() < 2 {
    } else if s[0] == '\r' && s[1] == '\n' {
        lemma_join_split_crlf(s.skip(2));
        lemma_split_crlf_len(s.skip(2));
        let parts = seq![Seq::<char>::empty()] + split_crlf(s.skip(2));
        assert(parts.drop_first() =~~= split_crlf(s.skip(2)));
        assert(parts.len() >= 2);
        assert(join_crlf(parts) == parts[0] + crlf() + join_crlf(parts.drop_first()));
        assert(Seq::<char>::empty() + crlf() + s.skip(2) =~= s);
    } else {
        lemma_join_split_crlf(s.drop_first());
        lemma_split_crlf_len(s.drop_first());
        let rest = split_crlf(s.drop_first());
        let upd = rest.update(0, seq![s[0]] + rest[0]);
        if rest.len() == 1 {
            assert(join_crlf(upd) == upd[0]);
            assert(join_crlf(rest) == rest[0]);
            assert(upd[0] =~= seq![s[0]] + s.drop_first());
            assert(seq![s[0]] + s.drop_first() =~= s);
        } else {
            assert(upd.drop_first() =~~= rest.drop_first());
            assert(join_crlf(upd) == upd[0] + crlf() + join_crlf(rest.drop_first()));
            assert(join_crlf(rest) == rest[0] + crlf() + join_crlf(rest.drop_first()));
            assert(upd[0] + crlf() + join_crlf(rest.drop_first()) =~= seq![s[0]] + (rest[0]
                + crlf() + join_crlf(rest.drop_first())));
            assert(seq![s[0]] + s.drop_first() =~= s);
        }
    }
}

/// A CRLF-free segment followed by a separator splits off whole.
pub proof fn lemma_split_crlf_line(a: Seq<char>, t: Seq<char>)
    requires
        crlf_free(a),
    ensures
        split_crlf(a + crlf() + t) == seq![a] + split_crlf(t),
    decreases a.len(),
{
    let s = a + crlf() + t;
    if a.len() == 0 {
        assert(s[0] == '\r' && s[1] == '\n');
        assert(s.skip(2) =~= t);
        assert(split_crlf(s) == seq![Seq::<char>::empty()] + split_crlf(t));
        assert(seq![Seq::<char>::empty()] + split_crlf(t) =~~= seq![a] + split_crlf(t));
    } else {
        assert(s.len() >= 3);
        assert(s[0] == a[0]);
        if a.len() >= 2 {
            assert(s[1] == a[1]);
            assert(!crlf_at(a, 0));
        } else {
            assert(s[1] == '\r');
        }
        assert(!crlf_at(s, 0));
        assert(!(s[0] == '\r' && s[1] == '\n'));
        assert(s.drop_first() =~= a.drop_first() + crlf() + t);
        assert(crlf_free(a.drop_first())) by {
            assert forall|i: int| !crlf_at(a.drop_first(), i) by {
                if crlf_at(a.drop_first(), i) {
                    assert(crlf_at(a, i + 1));
                }
            }
        }
        lemma_split_crlf_line(a.drop_first(), t);
        let rest = split_crlf(s.drop_first());
        lemma_split_crlf_len(t);
        assert(rest[0] == a.drop_first());
        assert(rest.update(0, seq![s[0]] + rest[0]) =~~= seq![a] + split_crlf(t)) by {
            assert(seq![s[0]] + a.drop_first() =~= a);
        }
    }
}

// ===== executable helpers =====

/// The characters of a string, in order.
pub fn str_to_chars(s: &str) -> (r: Vec<char>)
    ensures
        r@ == s@,
{
    let n = s.unicode_len();
    let mut r: Vec<char> = Vec::new();
    let mut i: usize = 0;
    while i < n
        invariant
            n == s@.len(),
            i <= n,
            r@ == s@.take(i as int),
        decreases n - i,
    {
        let c = s.get_char(i);
        r.push(c);
        i = i + 1;
        proof {
            assert(r@ =~= s@.take(i as int));
        }
    }
    proof {
        assert(r@ =~= s@);
    }
    r
}

/// Relies on `String: FromIterator<char>`: collecting characters yields the
/// string of exactly those characters, in order.
#[verifier::external_body]
pub(crate) fn chars_to_string(v: &Vec<char>) -> (r: String)
    ensures
        r@ == v@,
{
    v.iter().collect()
}

/// Append a copy of `src` to `acc`.
pub fn append_chars(acc: &mut Vec<char>, src: &Vec<char>)
    ensures
        final(acc)@ == old(acc)@ + src@,
{
    let ghost acc0 = old(acc)@;
    let mut j: usize = 0;
    proof {
        assert(acc@ =~= acc0 + src@.take(0));
    }
    while j < src.len()
        invariant
            j <= src@.len(),
            acc@ == acc0 + src@.take(j as int),
        decreases src@.len() - j,
    {
        acc.push(src[j]);
        j = j + 1;
        proof {
            assert(acc@ =~= acc0 + src@.take(j as int));
        }
    }
    proof {
        assert(acc0 + src@.take(src@.len() as int) =~= acc0 + src@);
    }
}

/// `parts` with its first segment prefixed by `p`.
pub open spec fn prepend_first(p: Seq<char>, parts: Seq<Seq<char>>) -> Seq<Seq<char>>
    recommends
        parts.len() >= 1,
{
    parts.update(0, p + parts[0])
}

/// Split at every CRLF pair, as [`split_crlf`] describes.
pub fn split_crlf_vec(v: &Vec<char>) -> (r: Vec<Vec<char>>)
    ensures
        r.deep_view() == split_crlf(v@),
{
    let mut segs: Vec<Vec<char>> = Vec::new();
    let mut cur: Vec<char> = Vec::new();
    let mut i: usize = 0;
    proof {
        lemma_split_crlf_len(v@);
        assert(v@.skip(0) =~= v@);
        assert(segs.deep_view() + prepend_first(cur@, split_crlf(v@)) =~~= split_crlf(v@));
    }
    while i < v.len()
        invariant
            i <= v@.len(),
            split_crlf(v@) == segs.deep_view() + prepend_first(
                cur@,
                split_crlf(v@.skip(i as int)),
            ),
        decreases v@.len() - i,
    {
        let ghost segs0 = segs.deep_view();
        let ghost cur0 = cur@;
        let ghost rem = v@.skip(i as int);
        proof {
            lemma_split_crlf_len(rem);
        }
        if i + 1 < v.len() && v[i] == '\r' && v[i + 1] == '\n' {
            proof {
                assert(rem[0] == '\r' && rem[1] == '\n');
                lemma_split_crlf_pair(rem);
                assert(rem.skip(2) =~= v@.skip(i + 2));
                lemma_split_crlf_len(v@.skip(i + 2));
                assert(prepend_first(cur0, split_crlf(rem)) =~~= seq![cur0] + split_crlf(
                    v@.skip(i + 2),
                ));
            }
            segs.push(cur);
            cur = Vec::new();
            i = i + 2;
            proof {
                assert(segs.deep_view() =~~= segs0.push(cur0));
                assert(segs.deep_view() + prepend_first(
                    cur@,
                    split_crlf(v@.skip(i as int)),
                ) =~~= segs0 + (seq![cur0] + split_crlf(v@.skip(i as int))));
            }
        } else {
            proof {
                assert(!crlf_at(rem, 0));
                lemma_split_crlf_step(rem);
                assert(rem.drop_first() =~= v@.skip(i + 1));
                lemma_split_crlf_len(v@.skip(i + 1));
            }
            let c = v[i];
            cur.push(c);
            i = i + 1;
            proof {
                let tail = split_crlf(v@.skip(i as int));
                assert(prepend_first(cur0, tail.update(0, seq![c] + tail[0])) =~~= prepend_first(
                    cur@,
                    tail,
                )) by {
                    assert(cur0 + (seq![c] + tail[0]) =~= cur@ + tail[0]);
                }
            }
        }
    }
    proof {
        assert(v@.skip(v@.len() as int) =~= Seq::<char>::empty());
        assert(split_crlf(Seq::<char>::empty()) == seq![Seq::<char>::empty()]);
        assert(prepend_first(cur@, split_crlf(Seq::<char>::empty())) =~~= seq![cur@]) by {
            assert(cur@ + Seq::<char>::empty() =~= cur@);
        }
    }
    let ghost segs1 = segs.deep_view();
    segs.push(cur);
    proof {
        assert(segs.deep_view() =~~= segs1.push(cur@));
        assert(segs.deep_view() =~~= split_crlf(v@));
    }
    segs
}

/// Appending one more segment to a join adds one separator and the segment.
pub proof fn lemma_join_crlf_push(parts: Seq<Seq<char>>, p: Seq<char>)
    requires
        parts.len() >= 1,
    ensures
        join_crlf(parts.push(p)) == join_crlf(parts) + crlf() + p,
    decreases parts.len(),
{
    let q = parts.push(p);
    if parts.len() == 1 {
        assert(q.len() == 2);
        assert(q.drop_first() =~~= seq![p]);
        assert(join_crlf(q) == q[0] + crlf() + join_crlf(q.drop_first()));
        assert(join_crlf(seq![p]) == p);
        assert(q[0] == parts[0]);
    } else {
        lemma_join_crlf_push(parts.drop_first(), p);
        assert(q.drop_first() =~~= parts.drop_first().push(p));
        assert(join_crlf(q) == q[0] + crlf() + join_crlf(parts.drop_first().push(p)));
        assert(q[0] == parts[0]);
        assert(parts[0] + crlf() + (join_crlf(parts.drop_first()) + crlf() + p) =~= (parts[0]
            + crlf() + join_crlf(parts.drop_first())) + crlf() + p);
    }
}

/// Join segments with CRLF between them, as [`join_crlf`] describes.
pub fn join_crlf_vec(parts: &Vec<Vec<char>>) -> (r: Vec<char>)
    ensures
        r@ == join_crlf(parts.deep_view()),
{
    let mut acc: Vec<char> = Vec::new();
    if parts.len() == 0 {
        return acc;
    }
    append_chars(&mut acc, &parts[0]);
    proof {
        assert(parts.deep_view().take(1) =~~= seq![parts.deep_view()[0]]);
        assert(Seq::<char>::empty() + parts.deep_view()[0] =~= parts.deep_view()[0]);
    }
    let mut k: usize = 1;
    while k < parts.len()
        invariant
            1 <= k <= parts@.len(),
            parts.deep_view().len() == parts@.len(),
            acc@ == join_crlf(parts.deep_view().take(k as int)),
        decreases parts@.len() - k,
    {
        let ghost acc0 = acc@;
        acc.push('\r');
        acc.push('\n');
        append_chars(&mut acc, &parts[k]);
        proof {
            let dv = parts.deep_view();
            lemma_join_crlf_push(dv.take(k as int), dv[k as int]);
            assert(dv.take(k as int).push(dv[k as int]) =~~= dv.take(k + 1));
            assert(acc@ =~= join_crlf(dv.take(k as int)) + crlf() + dv[k as int]);
        }
        k = k + 1;
    }
    proof {
        assert(parts.deep_view().take(parts@.len() as int) =~~= parts.deep_view());
    }
    acc
}

// ===== whitespace =====

/// ASCII whitespace, the separator set used for start-line tokenizing.
pub open spec fn is_ws(c: char) -> bool {
    c == ' ' || c == '\t' || c == '\n' || c == '\x0C' || c == '\r'
}

/// `s` contains no whitespace character.
pub open spec fn ws_free(s: Seq<char>) -> bool {
    forall|i: int| 0 <= i < s.len() ==> !is_ws(s[i])
}

/// Split `s` on runs of whitespace, dropping empty tokens.
pub open spec fn split_ws(s: Seq<char>) -> Seq<Seq<char>>
    decreases s.len(),
{
    if s.len() == 0 {
        Seq::<Seq<char>>::empty()
    } else if is_ws(s[0]) {
        split_ws(s.drop_first())
    } else if s.len() >= 2 && !is_ws(s[1]) {
        let rest = split_ws(s.drop_first());
        rest.update(0, seq![s[0]] + rest[0])
    } else {
        seq![seq![s[0]]] + split_ws(s.drop_first())
    }
}

/// A whitespace-free word followed by whitespace (or the end) is one token.
pub proof fn lemma_split_ws_token(a: Seq<char>, t: Seq<char>)
    requires
        a.len() >= 1,
        ws_free(a),
        t.len() == 0 || is_ws(t[0]),
    ensures
        split_ws(a + t) == seq![a] + split_ws(t),
    decreases a.len(),
{
    let s = a + t;
    assert(!is_ws(s[0]));
    if a.len() == 1 {
        if s.len() >= 2 {
            assert(s[1] == t[0]);
            assert(is_ws(s[1]));
        }
        assert(s.drop_first() =~= t);
        assert(seq![seq![s[0]]] + split_ws(t) =~~= seq![a] + split_ws(t)) by {
            assert(seq![s[0]] =~= a);
        }
    } else {
        assert(s[1] == a[1]);
        assert(!is_ws(s[1]));
        assert(s.drop_first() =~= a.drop_first() + t);
        assert(ws_free(a.drop_first())) by {
            assert(forall|i: int|
                0 <= i < a.drop_first().len() ==> a.drop_first()[i] == a[i + 1]);
        }
        lemma_split_ws_token(a.drop_first(), t);
        let rest = split_ws(s.drop_first());
        assert(rest[0] == a.drop_first());
        assert(rest.update(0, seq![s[0]] + rest[0]) =~~= seq![a] + split_ws(t)) by {
            assert(seq![s[0]] + a.drop_first() =~= a);
        }
    }
}

/// A whitespace-free word is a single token.
pub proof fn lemma_split_ws_whole(a: Seq<char>)
    requires
        a.len() >= 1,
        ws_free(a),
    ensures
        split_ws(a) == seq![a],
{
    lemma_split_ws_token(a, Seq::<char>::empty());
    assert(a + Seq::<char>::empty() =~= a);
    assert(seq![a] + split_ws(Seq::<char>::empty()) =~~= seq![a]);
}

/// Whether `c` is ASCII whitespace.
pub fn is_ws_exec(c: char) -> (r: bool)
    ensures
        r == is_ws(c),
{
    c == ' ' || c == '\t' || c == '\n' || c == '\x0C' || c == '\r'
}

/// Tokenize on whitespace, as [`split_ws`] describes.
pub fn split_ws_vec(v: &Vec<char>) -> (r: Vec<Vec<char>>)
    ensures
        r.deep_view() == split_ws(v@),
{
    let mut toks: Vec<Vec<char>> = Vec::new();
    let mut cur: Vec<char> = Vec::new();
    let mut i: usize = 0;
    proof {
        assert(cur@ + v@.skip(0) =~= v@);
        assert(toks.deep_view() + split_ws(v@) =~~= split_ws(v@));
    }
    while i < v.len()
        invariant
            i <= v@.len(),
            ws_free(cur@),
            split_ws(v@) == toks.deep_view() + split_ws(cur@ + v@.skip(i as int)),
        decreases v@.len() - i,
    {
        let ghost toks0 = toks.deep_view();
        let ghost cur0 = cur@;
        let c = v[i];
        if is_ws_exec(c) {
            proof {
                assert(v@.skip(i as int)[0] == c);
                assert(v@.skip(i as int).drop_first() =~= v@.skip(i + 1));
            }
            if cur.len() > 0 {
                proof {
                    lemma_split_ws_token(cur0, v@.skip(i as int));
                    assert(split_ws(cur0 + v@.skip(i as int)) == seq![cur0] + split_ws(
                        v@.skip(i as int),
                    ));
                    assert(split_ws(v@.skip(i as int)) == split_ws(v@.skip(i + 1)));
                }
                toks.push(cur);
                cur = Vec::new();
                proof {
                    assert(toks.deep_view() =~~= toks0.push(cur0));
                    assert(cur@ + v@.skip(i + 1) =~= v@.skip(i + 1));
                    assert(toks0 + (seq![cur0] + split_ws(v@.skip(i + 1))) =~~= toks.deep_view()
                        + split_ws(v@.skip(i + 1)));
                }
            } else {
                proof {
                    assert(cur0 + v@.skip(i as int) =~= v@.skip(i as int));
                    assert(split_ws(v@.skip(i as int)) == split_ws(v@.skip(i + 1)));
                    assert(cur0 + v@.skip(i + 1) =~= v@.skip(i + 1));
                }
            }
            i = i + 1;
        } else {
            cur.push(c);
            i = i + 1;
            proof {
                assert(cur@ =~= cur0.push(c));
                assert(cur0 + v@.skip(i - 1) =~= cur@ + v@.skip(i as int));
                assert(ws_free(cur@)) by {
                    assert(forall|j: int| 0 <= j < cur0.len() ==> cur@[j] == cur0[j]);
                    assert(cur@[cur0.len() as int] == c);
                }
            }
        }
    }
    proof {
        assert(v@.skip(v@.len() as int) =~= Seq::<char>::empty());
    }
    if cur.len() > 0 {
        proof {
            assert(cur@ + Seq::<char>::empty() =~= cur@);
            lemma_split_ws_whole(cur@);
        }
        let ghost toks1 = toks.deep_view();
        let ghost curv = cur@;
        toks.push(cur);
        proof {
            assert(toks.deep_view() =~~= toks1.push(curv));
            assert(toks1 + seq![curv] =~~= toks1.push(curv));
        }
    } else {
        proof {
            assert(cur@ + Seq::<char>::empty() =~= Seq::<char>::empty());
            assert(toks.deep_view() + split_ws(Seq::<char>::empty()) =~~= toks.deep_view());
        }
    }
    toks
}

// ===== trimming =====

/// Drop leading whitespace.
pub open spec fn trim_start(s: Seq<char>) -> Seq<char>
    decreases s.len(),
{
    if s.len() == 0 {
        s
    } else if is_ws(s[0]) {
        trim_start(s.drop_first())
    } else {
        s
    }
}

/// Drop trailing whitespace.
pub open spec fn trim_end(s: Seq<char>) -> Seq<char>
    decreases s.len(),
{
    if s.len() == 0 {
        s
    } else if is_ws(s.last()) {
        trim_end(s.drop_last())
    } else {
        s
    }
}

/// Drop whitespace from both ends.
pub open spec fn trim(s: Seq<char>) -> Seq<char> {
    trim_end(trim_start(s))
}

/// Trimming does nothing to a whitespace-free text.
pub proof fn lemma_trim_ws_free(s: Seq<char>)
    requires
        ws_free(s),
    ensures
        trim(s) == s,
{
    if s.len() > 0 {
        assert(!is_ws(s[0]));
        assert(!is_ws(s.last()));
    }
}

/// Copy the characters of `v` with indices in `lo..hi`.
pub fn copy_range(v: &Vec<char>, lo: usize, hi: usize) -> (r: Vec<char>)
    requires
        lo <= hi <= v@.len(),
    ensures
        r@ == v@.subrange(lo as int, hi as int),
{
    let mut r: Vec<char> = Vec::new();
    let mut j: usize = lo;
    while j < hi
        invariant
            lo <= j <= hi <= v@.len(),
            r@ == v@.subrange(lo as int, j as int),
        decreases hi - j,
    {
        r.push(v[j]);
        j = j + 1;
        proof {
            assert(r@ =~= v@.subrange(lo as int, j as int));
        }
    }
    r
}

/// Trim ASCII whitespace from both ends, as [`trim`] describes.
pub fn trim_vec(v: &Vec<char>) -> (r: Vec<char>)
    ensures
        r@ == trim(v@),
{
    let mut lo: usize = 0;
    proof {
        assert(v@.skip(0) =~= v@);
    }
    while lo < v.len() && is_ws_exec(v[lo])
        invariant
            lo <= v@.len(),
            trim_start(v@) == trim_start(v@.skip(lo as int)),
        decreases v@.len() - lo,
    {
        proof {
            assert(v@.skip(lo as int)[0] == v@[lo as int]);
            assert(v@.skip(lo as int).drop_first() =~= v@.skip(lo + 1));
        }
        lo = lo + 1;
    }
    proof {
        if lo < v@.len() {
            assert(!is_ws(v@.skip(lo as int)[0]));
        } else {
            assert(v@.skip(lo as int) =~= Seq::<char>::empty());
        }
        assert(trim_start(v@) == v@.skip(lo as int));
    }
    let mut hi: usize = v.len();
    while hi > lo && is_ws_exec(v[hi - 1])
        invariant
            lo <= hi <= v@.len(),
            trim_start(v@) == v@.skip(lo as int),
            trim_end(v@.skip(lo as int)) == trim_end(v@.subrange(lo as int, hi as int)),
        decreases hi,
    {
        proof {
            let cur = v@.subrange(lo as int, hi as int);
            assert(cur.last() == v@[hi - 1]);
            assert(cur.drop_last() =~= v@.subrange(lo as int, hi - 1));
        }
        hi = hi - 1;
    }
    proof {
        let cur = v@.subrange(lo as int, hi as int);
        if hi > lo {
            assert(!is_ws(cur.last()));
        } else {
            assert(cur =~= Seq::<char>::empty());
        }
        assert(trim_end(cur) == cur);
    }
    copy_range(v, lo, hi)
}

// ===== searching =====

/// The first index of `c` in `s`, or -1 if `c` does not occur.
pub open spec fn find_char(s: Seq<char>, c: char) -> int
    decreases s.len(),
{
    if s.len() == 0 {
        -1
    } else if s[0] == c {
        0
    } else {
        let r = find_char(s.drop_first(), c);
        if r < 0 {
            -1
        } else {
            r + 1
        }
    }
}

pub proof fn lemma_find_char(s: Seq<char>, c: char)
    ensures
        -1 <= find_char(s, c),
        find_char(s, c) == -1 ==> forall|i: int| 0 <= i < s.len() ==> s[i] != c,
        find_char(s, c) >= 0 ==> find_char(s, c) < s.len() && s[find_char(s, c)] == c,
        find_char(s, c) >= 0 ==> forall|j: int| 0 <= j < find_char(s, c) ==> s[j] != c,
    decreases s.len(),
{
    if s.len() == 0 {
    } else if s[0] == c {
    } else {
        lemma_find_char(s.drop_first(), c);
        let r = find_char(s.drop_first(), c);
        if r == -1 {
            assert forall|i: int| 0 <= i < s.len() implies s[i] != c by {
                if i >= 1 {
                    assert(s.drop_first()[i - 1] != c);
                }
            }
        } else {
            assert(s[r + 1] == s.drop_first()[r]);
            assert forall|j: int| 0 <= j < r + 1 implies s[j] != c by {
                if j >= 1 {
                    assert(s.drop_first()[j - 1] != c);
                }
            }
        }
    }
}

/// Indexing the element views of a vector of vectors.
pub proof fn lemma_dv_index(parts: &Vec<Vec<char>>, i: int)
    requires
        0 <= i < parts@.len(),
    ensures
        parts.deep_view().len() == parts@.len(),
        parts.deep_view()[i] == parts@[i]@,
{
    assert(parts.deep_view()[i] =~= parts@[i]@);
}

/// Find the first occurrence of `c`, as [`find_char`] describes.
pub fn find_char_vec(v: &Vec<char>, c: char) -> (r: Option<usize>)
    ensures
        match r {
            Some(i) => find_char(v@, c) == i as int,
            None => find_char(v@, c) == -1,
        },
{
    let mut i: usize = 0;
    while i < v.len()
        invariant
            i <= v@.len(),
            forall|j: int| 0 <= j < i ==> v@[j] != c,
        decreases v@.len() - i,
    {
        if v[i] == c {
            proof {
                lemma_find_char(v@, c);
                let f = find_char(v@, c);
                if f == -1 {
                    assert(v@[i as int] != c);
                } else if f < i as int {
                    assert(v@[f] != c);
                } else if f > i as int {
                    assert(v@[i as int] != c);
                }
            }
            return Some(i);
        }
        i = i + 1;
    }
    proof {
        lemma_find_char(v@, c);
        if find_char(v@, c) >= 0 {
            assert(v@[find_char(v@, c)] != c);
        }
    }
    None
}

/// The first index at or after `k` whose segment is empty, or -1.
pub open spec fn find_empty_from(parts: Seq<Seq<char>>, k: int) -> int
    decreases parts.len() - k,
{
    if k < 0 || k >= parts.len() {
        -1
    } else if parts[k].len() == 0 {
        k
    } else {
        find_empty_from(parts, k + 1)
    }
}

pub proof fn lemma_find_empty_from(parts: Seq<Seq<char>>, k: int)
    requires
        0 <= k,
    ensures
        -1 <= find_empty_from(parts, k),
        find_empty_from(parts, k) == -1 ==> forall|i: int|
            k <= i < parts.len() ==> (#[trigger] parts[i]).len() != 0,
        find_empty_from(parts, k) >= 0 ==> k <= find_empty_from(parts, k) < parts.len()
            && parts[find_empty_from(parts, k)].len() == 0,
        find_empty_from(parts, k) >= 0 ==> forall|j: int|
            k <= j < find_empty_from(parts, k) ==> (#[trigger] parts[j]).len() != 0,
    decreases parts.len() - k,
{
    if k >= parts.len() {
    } else if parts[k].len() == 0 {
    } else {
        lemma_find_empty_from(parts, k + 1);
    }
}

/// Find the first empty segment at or after `k`, as [`find_empty_from`]
/// describes.
pub fn find_empty_from_vec(parts: &Vec<Vec<char>>, k: usize) -> (r: Option<usize>)
    ensures
        match r {
            Some(i) => find_empty_from(parts.deep_view(), k as int) == i as int,
            None => find_empty_from(parts.deep_view(), k as int) == -1,
        },
{
    let mut i: usize = k;
    while i < parts.len()
        invariant
            k <= i,
            i <= parts@.len() || i == k,
            forall|j: int|
                k <= j < i ==> (#[trigger] parts.deep_view()[j]).len() != 0,
        decreases parts@.len() - i,
    {
        if parts[i].len() == 0 {
            proof {
                let dv = parts.deep_view();
                lemma_dv_index(parts, i as int);
                assert(dv[i as int].len() == 0);
                lemma_find_empty_from(dv, k as int);
                let f = find_empty_from(dv, k as int);
                if f == -1 {
                    assert(dv[i as int].len() != 0);
                } else if f < i as int {
                    assert(k <= f < i as int);
                    assert(parts.deep_view()[f].len() != 0);
                } else if f > i as int {
                    assert(dv[i as int].len() != 0);
                }
            }
            return Some(i);
        }
        proof {
            lemma_dv_index(parts, i as int);
            assert(parts.deep_view()[i as int].len() != 0);
        }
        i = i + 1;
    }
    proof {
        let dv = parts.deep_view();
        lemma_find_empty_from(dv, k as int);
        if find_empty_from(dv, k as int) >= 0 {
            assert(dv[find_empty_from(dv, k as int)].len() != 0);
        }
    }
    None
}

/// Compare the characters of `v` with the text of `s`.
pub fn chars_eq_str(v: &Vec<char>, s: &str) -> (r: bool)
    ensures
        r == (v@ == s@),
{
    let n = s.unicode_len();
    if v.len() != n {
        proof {
            assert(v@.len() != s@.len());
        }
        return false;
    }
    let mut i: usize = 0;
    while i < n
        invariant
            n == s@.len(),
            v@.len() == n,
            i <= n,
            forall|j: int| 0 <= j < i ==> v@[j] == s@[j],
        decreases n - i,
    {
        if v[i] != s.get_char(i) {
            proof {
                assert(v@[i as int] != s@[i as int]);
            }
            return false;
        }
        i = i + 1;
    }
    proof {
        assert(v@ =~= s@);
    }
    true
}


// ===== decimal numbers =====

/// A decimal digit.
pub open spec fn is_digit(c: char) -> bool {
    c == '0' || c == '1' || c == '2' || c == '3' || c == '4' || c == '5' || c == '6' || c == '7'
        || c == '8' || c == '9'
}

/// The value of a decimal digit.
pub open spec fn digit_val(c: char) -> int {
    if c == '0' {
        0
    } else if c == '1' {
        1
    } else if c == '2' {
        2
    } else if c == '3' {
        3
    } else if c == '4' {
        4
    } else if c == '5' {
        5
    } else if c == '6' {
        6
    } else if c == '7' {
        7
    } else if c == '8' {
        8
    } else {
        9
    }
}

/// The digit for a value below ten.
pub open spec fn digit_char(d: int) -> char {
    if d == 0 {
        '0'
    } else if d == 1 {
        '1'
    } else if d == 2 {
        '2'
    } else if d == 3 {
        '3'
    } else if d == 4 {
        '4'
    } else if d == 5 {
        '5'
    } else if d == 6 {
        '6'
    } else if d == 7 {
        '7'
    } else if d == 8 {
        '8'
    } else {
        '9'
    }
}

/// Every character of `s` is a decimal digit.
pub open spec fn all_digits(s: Seq<char>) -> bool {
    forall|i: int| 0 <= i < s.len() ==> is_digit(#[trigger] s[i])
}

/// The value of a digit string, most significant digit first.
pub open spec fn dec_val(s: Seq<char>) -> int
    decreases s.len(),
{
    if s.len() == 0 {
        0
    } else {
        dec_val(s.drop_last()) * 10 + digit_val(s.last())
    }
}

/// The decimal digits of a non-negative number, most significant first.
pub open spec fn dec_str(n: int) -> Seq<char>
    recommends
        n >= 0,
    decreases n,
{
    if n < 10 {
        seq![digit_char(n)]
    } else {
        dec_str(n / 10) + seq![digit_char(n % 10)]
    }
}

/// The digits-and-sign shape accepted when reading a `usize`, as
/// `str::parse::<usize>` accepts it: an optional leading `+`, then at
/// least one digit, and a value that fits the machine word.
pub open spec fn parse_usize_ok(s: Seq<char>) -> bool {
    let d = if s.len() >= 1 && s[0] == '+' {
        s.drop_first()
    } else {
        s
    };
    d.len() >= 1 && all_digits(d) && dec_val(d) <= usize::MAX
}

/// The number a digit string denotes.
pub open spec fn parse_usize_val(s: Seq<char>) -> int {
    let d = if s.len() >= 1 && s[0] == '+' {
        s.drop_first()
    } else {
        s
    };
    dec_val(d)
}

pub proof fn lemma_dec_val_nonneg(s: Seq<char>)
    requires
        all_digits(s),
    ensures
        dec_val(s) >= 0,
    decreases s.len(),
{
    if s.len() > 0 {
        assert(all_digits(s.drop_last())) by {
            assert(forall|i: int|
                0 <= i < s.drop_last().len() ==> s.drop_last()[i] == s[i]);
        }
        lemma_dec_val_nonneg(s.drop_last());
    }
}

/// The value of a prefix never exceeds the value of the whole digit string.
pub proof fn lemma_dec_val_take_le(s: Seq<char>, k: int)
    requires
        all_digits(s),
        0 <= k <= s.len(),
    ensures
        0 <= dec_val(s.take(k)) <= dec_val(s),
    decreases s.len() - k,
{
    assert(all_digits(s.take(k))) by {
        assert(forall|i: int| 0 <= i < k ==> s.take(k)[i] == s[i]);
    }
    lemma_dec_val_nonneg(s.take(k));
    if k == s.len() {
        assert(s.take(k) =~= s);
    } else {
        lemma_dec_val_take_le(s, k + 1);
        assert(s.take(k + 1).drop_last() =~= s.take(k));
        assert(s.take(k + 1).last() == s[k]);
        assert(dec_val(s.take(k + 1)) == dec_val(s.take(k)) * 10 + digit_val(s[k]));
        assert(digit_val(s[k]) >= 0);
        assert(dec_val(s.take(k)) * 10 >= dec_val(s.take(k)));
    }
}

/// Whether `c` is a digit, and which.
pub fn digit_of(c: char) -> (r: Option<u8>)
    ensures
        match r {
            Some(d) => is_digit(c) && d as int == digit_val(c),
            None => !is_digit(c),
        },
{
    match c {
        '0' => Some(0),
        '1' => Some(1),
        '2' => Some(2),
        '3' => Some(3),
        '4' => Some(4),
        '5' => Some(5),
        '6' => Some(6),
        '7' => Some(7),
        '8' => Some(8),
        '9' => Some(9),
        _ => None,
    }
}

/// The digit for a value below ten, as [`digit_char`] gives it.
pub fn digit_to_char(d: usize) -> (r: char)
    requires
        d < 10,
    ensures
        r == digit_char(d as int),
{
    match d {
        0 => '0',
        1 => '1',
        2 => '2',
        3 => '3',
        4 => '4',
        5 => '5',
        6 => '6',
        7 => '7',
        8 => '8',
        _ => '9',
    }
}

/// Read a non-negative number, accepting exactly what
/// `str::parse::<usize>` accepts.
pub fn parse_usize_chars(v: &Vec<char>) -> (r: Option<usize>)
    ensures
        match r {
            Some(n) => parse_usize_ok(v@) && n as int == parse_usize_val(v@),
            None => !parse_usize_ok(v@),
        },
{
    let off: usize = if v.len() >= 1 && v[0] == '+' {
        1
    } else {
        0
    };
    let ghost d = if v@.len() >= 1 && v@[0] == '+' {
        v@.drop_first()
    } else {
        v@
    };
    proof {
        assert(d =~= v@.skip(off as int));
    }
    if v.len() == off {
        return None;
    }
    let mut acc: usize = 0;
    let mut i: usize = off;
    proof {
        assert(d.take(0) =~= Seq::<char>::empty());
    }
    while i < v.len()
        invariant
            off <= i <= v@.len(),
            off <= 1,
            d == v@.skip(off as int),
            d == (if v@.len() >= 1 && v@[0] == '+' {
                v@.drop_first()
            } else {
                v@
            }),
            d.len() == v@.len() - off,
            all_digits(d.take(i - off)),
            acc as int == dec_val(d.take(i - off)),
        decreases v@.len() - i,
    {
        let c = v[i];
        proof {
            assert(d[i - off] == v@[i as int]);
        }
        match digit_of(c) {
            None => {
                proof {
                    assert(!is_digit(d[i - off]));
                    assert(!all_digits(d));
                }
                return None;
            },
            Some(dig) => {
                proof {
                    assert(d.take(i - off + 1).drop_last() =~= d.take(i - off));
                    assert(d.take(i - off + 1).last() == d[i - off]);
                    assert(all_digits(d.take(i - off + 1))) by {
                        assert(forall|j: int|
                            0 <= j < i - off + 1 ==> d.take(i - off + 1)[j] == d[j]);
                    }
                }
                let max_div: usize = usize::MAX / 10;
                let max_mod: usize = usize::MAX % 10;
                if acc > max_div || (acc == max_div && dig as usize > max_mod) {
                    proof {
                        assert(dec_val(d.take(i - off + 1)) == acc as int * 10 + dig as int);
                        assert(usize::MAX as int == (usize::MAX as int / 10) * 10 + (
                        usize::MAX as int % 10));
                        assert(acc as int * 10 + dig as int > usize::MAX as int);
                        lemma_dec_val_take_le_wrap(d, i - off + 1);
                        assert(!parse_usize_ok(v@));
                    }
                    return None;
                }
                proof {
                    assert(acc as int * 10 + dig as int <= usize::MAX as int) by {
                        assert(usize::MAX as int == (usize::MAX as int / 10) * 10 + (
                        usize::MAX as int % 10));
                    }
                }
                acc = acc * 10 + (dig as usize);
                i = i + 1;
            },
        }
    }
    proof {
        assert(d.take(d.len() as int) =~= d);
    }
    Some(acc)
}

/// The prefix bound, phrased for a possibly failing whole string.
proof fn lemma_dec_val_take_le_wrap(s: Seq<char>, k: int)
    requires
        0 <= k <= s.len(),
        all_digits(s.take(k)),
        dec_val(s.take(k)) > usize::MAX as int,
    ensures
        all_digits(s) ==> dec_val(s) > usize::MAX as int,
{
    if all_digits(s) {
        lemma_dec_val_take_le(s, k);
    }
}

/// Write a number in decimal, as [`dec_str`] gives it.
pub fn usize_to_chars(n: usize) -> (r: Vec<char>)
    ensures
        r@ == dec_str(n as int),
{
    let mut ds: Vec<char> = Vec::new();
    let mut m: usize = n;
    ds.push(digit_to_char(m % 10));
    proof {
        assert(ds@ =~= seq![digit_char(n as int % 10)]);
        if n < 10 {
            assert(n as int % 10 == n as int);
            assert(dec_str(n as int) == seq![digit_char(n as int)]);
            assert(ds@.reverse() =~= ds@);
        } else {
            assert(ds@.reverse() =~= seq![digit_char(n as int % 10)]);
            assert(dec_str(n as int) == dec_str(n as int / 10) + seq![digit_char(
                n as int % 10,
            )]);
        }
    }
    m = m / 10;
    while m > 0
        invariant
            if m > 0 {
                dec_str(n as int) == dec_str(m as int) + ds@.reverse()
            } else {
                dec_str(n as int) == ds@.reverse()
            },
        decreases m,
    {
        let ghost ds0 = ds@;
        let dig = m % 10;
        ds.push(digit_to_char(dig));
        proof {
            assert(ds@.reverse() =~= seq![digit_char(dig as int)] + ds0.reverse());
            if m >= 10 {
                assert(dec_str(m as int) == dec_str(m as int / 10) + seq![digit_char(
                    m as int % 10,
                )]);
                assert(dec_str(m as int / 10) + (seq![digit_char(dig as int)]
                    + ds0.reverse()) =~= (dec_str(m as int / 10) + seq![digit_char(
                    dig as int,
                )]) + ds0.reverse());
            } else {
                assert(dec_str(m as int) == seq![digit_char(m as int)]);
                assert(m as int % 10 == m as int);
                assert(seq![digit_char(dig as int)] + ds0.reverse() =~= dec_str(m as int)
                    + ds0.reverse());
            }
        }
        m = m / 10;
    }
    let mut r: Vec<char> = Vec::new();
    let mut j: usize = ds.len();
    while j > 0
        invariant
            j <= ds@.len(),
            r@.len() == ds@.len() - j,
            forall|k: int| 0 <= k < r@.len() ==> r@[k] == ds@[ds@.len() - 1 - k],
        decreases j,
    {
        j = j - 1;
        r.push(ds[j]);
    }
    proof {
        assert(r@ =~= ds@.reverse());
    }
    r
}


/// Join the segments from index `from` on, with CRLF between them.
pub fn join_crlf_from(parts: &Vec<Vec<char>>, from: usize) -> (r: Vec<char>)
    requires
        from as int <= parts@.len(),
    ensures
        r@ == join_crlf(parts.deep_view().skip(from as int)),
{
    let mut acc: Vec<char> = Vec::new();
    if from >= parts.len() {
        proof {
            assert(parts.deep_view().skip(from as int) =~~= Seq::<Seq<char>>::empty());
        }
        return acc;
    }
    append_chars(&mut acc, &parts[from]);
    proof {
        lemma_dv_index(parts, from as int);
        let sk = parts.deep_view().skip(from as int);
        assert(sk.take(1) =~~= seq![parts.deep_view()[from as int]]);
        assert(acc@ =~= join_crlf(sk.take(1)));
    }
    let mut k: usize = from + 1;
    while k < parts.len()
        invariant
            from < k <= parts@.len(),
            acc@ == join_crlf(parts.deep_view().skip(from as int).take(k - from)),
        decreases parts@.len() - k,
    {
        acc.push('\r');
        acc.push('\n');
        append_chars(&mut acc, &parts[k]);
        proof {
            let dv = parts.deep_view();
            let sk = dv.skip(from as int);
            lemma_dv_index(parts, k as int);
            assert(sk[k - from] == dv[k as int]);
            lemma_join_crlf_push(sk.take(k - from), sk[k - from]);
            assert(sk.take(k - from).push(sk[k - from]) =~~= sk.take(k + 1 - from));
            assert(acc@ =~= join_crlf(sk.take(k - from)) + crlf() + sk[k - from]);
        }
        k = k + 1;
    }
    proof {
        let sk = parts.deep_view().skip(from as int);
        assert(sk.take(sk.len() as int) =~~= sk);
    }
    acc
}


/// The first empty segment at or after `k` is exactly at `j` when `j` is
/// empty and everything between is not.
pub proof fn lemma_find_empty_at(parts: Seq<Seq<char>>, k: int, j: int)
    requires
        0 <= k <= j < parts.len(),
        parts[j].len() == 0,
        forall|i: int| k <= i < j ==> (#[trigger] parts[i]).len() != 0,
    ensures
        find_empty_from(parts, k) == j,
{
    lemma_find_empty_from(parts, k);
    let f = find_empty_from(parts, k);
    if f == -1 {
        assert(parts[j].len() != 0);
    } else if f < j {
        assert(parts[f].len() != 0);
    } else if f > j {
        assert(parts[j].len() != 0);
    }
}


// ===== line splitting =====

/// Split `s` at every newline character, keeping empty segments.
pub open spec fn split_nl(s: Seq<char>) -> Seq<Seq<char>>
    decreases s.len(),
{
    if s.len() == 0 {
        seq![s]
    } else if s[0] == '\n' {
        seq![Seq::<char>::empty()] + split_nl(s.drop_first())
    } else {
        let rest = split_nl(s.drop_first());
        rest.update(0, seq![s[0]] + rest[0])
    }
}

pub proof fn lemma_split_nl_len(s: Seq<char>)
    ensures
        split_nl(s).len() >= 1,
    decreases s.len(),
{
    if s.len() == 0 {
    } else if s[0] == '\n' {
    } else {
        lemma_split_nl_len(s.drop_first());
    }
}

/// A line with one trailing carriage return removed, as `str::lines` strips
/// it before a newline.
pub open spec fn strip_cr(l: Seq<char>) -> Seq<char> {
    if l.len() >= 1 && l.last() == '\r' {
        l.drop_last()
    } else {
        l
    }
}

/// The lines of a text, as `str::lines` yields them: split at newlines, a
/// final newline produces no extra empty line, and a carriage return right
/// before a newline is stripped.
pub open spec fn spec_lines(s: Seq<char>) -> Seq<Seq<char>> {
    if s.len() == 0 {
        Seq::<Seq<char>>::empty()
    } else {
        let parts = split_nl(s);
        let kept = if s.last() == '\n' {
            parts.drop_last()
        } else {
            parts
        };
        Seq::new(kept.len(), |i: int| strip_cr(kept[i]))
    }
}

/// Split at every newline, as [`split_nl`] describes.
pub fn split_nl_vec(v: &Vec<char>) -> (r: Vec<Vec<char>>)
    ensures
        r.deep_view() == split_nl(v@),
{
    let mut segs: Vec<Vec<char>> = Vec::new();
    let mut cur: Vec<char> = Vec::new();
    let mut i: usize = 0;
    proof {
        lemma_split_nl_len(v@);
        assert(v@.skip(0) =~= v@);
        assert(segs.deep_view() + prepend_first(cur@, split_nl(v@)) =~~= split_nl(v@));
    }
    while i < v.len()
        invariant
            i <= v@.len(),
            split_nl(v@) == segs.deep_view() + prepend_first(
                cur@,
                split_nl(v@.skip(i as int)),
            ),
        decreases v@.len() - i,
    {
        let ghost segs0 = segs.deep_view();
        let ghost cur0 = cur@;
        let ghost rem = v@.skip(i as int);
        proof {
            lemma_split_nl_len(rem);
            assert(rem[0] == v@[i as int]);
            assert(rem.drop_first() =~= v@.skip(i + 1));
        }
        let c = v[i];
        if c == '\n' {
            proof {
                lemma_split_nl_len(v@.skip(i + 1));
                assert(prepend_first(cur0, split_nl(rem)) =~~= seq![cur0] + split_nl(
                    v@.skip(i + 1),
                ));
            }
            segs.push(cur);
            cur = Vec::new();
            i = i + 1;
            proof {
                assert(segs.deep_view() =~~= segs0.push(cur0));
                assert(segs.deep_view() + prepend_first(
                    cur@,
                    split_nl(v@.skip(i as int)),
                ) =~~= segs0 + (seq![cur0] + split_nl(v@.skip(i as int))));
            }
        } else {
            proof {
                lemma_split_nl_len(v@.skip(i + 1));
            }
            cur.push(c);
            i = i + 1;
            proof {
                let tail = split_nl(v@.skip(i as int));
                assert(prepend_first(cur0, tail.update(0, seq![c] + tail[0])) =~~= prepend_first(
                    cur@,
                    tail,
                )) by {
                    assert(cur0 + (seq![c] + tail[0]) =~= cur@ + tail[0]);
                }
            }
        }
    }
    proof {
        assert(v@.skip(v@.len() as int) =~= Seq::<char>::empty());
        assert(split_nl(Seq::<char>::empty()) == seq![Seq::<char>::empty()]);
        assert(prepend_first(cur@, split_nl(Seq::<char>::empty())) =~~= seq![cur@]) by {
            assert(cur@ + Seq::<char>::empty() =~= cur@);
        }
    }
    let ghost segs1 = segs.deep_view();
    segs.push(cur);
    proof {
        assert(segs.deep_view() =~~= segs1.push(cur@));
        assert(segs.deep_view() =~~= split_nl(v@));
    }
    segs
}

/// The lines of the text, as [`spec_lines`] describes.
pub fn lines_vec(v: &Vec<char>) -> (r: Vec<Vec<char>>)
    ensures
        r.deep_view() == spec_lines(v@),
{
    if v.len() == 0 {
        let r: Vec<Vec<char>> = Vec::new();
        proof {
            assert(r.deep_view() =~~= spec_lines(v@));
        }
        return r;
    }
    let mut segs = split_nl_vec(v);
    proof {
        lemma_split_nl_len(v@);
    }
    let ghost kept = if v@.last() == '\n' {
        split_nl(v@).drop_last()
    } else {
        split_nl(v@)
    };
    if v[v.len() - 1] == '\n' {
        let ghost before = segs.deep_view();
        segs.pop();
        proof {
            assert(segs.deep_view() =~~= before.drop_last());
        }
    }
    proof {
        assert(segs.deep_view() =~~= kept);
    }
    let mut out: Vec<Vec<char>> = Vec::new();
    let mut i: usize = 0;
    while i < segs.len()
        invariant
            i <= segs@.len(),
            segs.deep_view() == kept,
            kept.len() == segs@.len(),
            v@.len() > 0,
            out.deep_view() == Seq::new(i as nat, |j: int| strip_cr(kept[j])),
        decreases segs@.len() - i,
    {
        let ghost out0 = out.deep_view();
        proof {
            lemma_dv_index(&segs, i as int);
        }
        let li = &segs[i];
        let l = if li.len() > 0 && li[li.len() - 1] == '\r' {
            let t = copy_range(li, 0, li.len() - 1);
            proof {
                assert(li@.subrange(0, li@.len() - 1) =~= li@.drop_last());
                assert(t@ == strip_cr(kept[i as int]));
            }
            t
        } else {
            let t = copy_range(li, 0, li.len());
            proof {
                assert(li@.subrange(0, li@.len() as int) =~= li@);
                assert(t@ == strip_cr(kept[i as int]));
            }
            t
        };
        out.push(l);
        i = i + 1;
        proof {
            assert(out.deep_view() =~~= out0.push(strip_cr(kept[i - 1])));
            assert(out.deep_view() =~~= Seq::new(i as nat, |j: int| strip_cr(kept[j])));
        }
    }
    proof {
        assert(out.deep_view() =~~= spec_lines(v@));
    }
    out
}

} // verus!

