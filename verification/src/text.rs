//! Text on sequences of characters: searching, splitting, joining and
//! trimming, each with its meaning as a function on `Seq<char>`.

use vstd::prelude::*;

verus! {

/// `String::push` appends one character to the end of the string.
pub assume_specification[ String::push ](s: &mut String, ch: char)
    ensures
        final(s)@ == old(s)@.push(ch),
;

/// The characters of a string slice, in order.
pub fn chars_of(s: &str) -> (v: Vec<char>)
    ensures
        v@ == s@,
{
    let mut v: Vec<char> = Vec::new();
    for c in it: s.chars()
        invariant
            it.seq() == s@,
            v@ == it.seq().take(it.index() as int),
    {
        v.push(c);
    }
    v
}

/// The string made of the given characters, in order.
pub fn string_of(v: &[char]) -> (s: String)
    ensures
        s@ == v@,
{
    let mut s = String::new();
    let mut i: usize = 0;
    while i < v.len()
        invariant
            i <= v.len(),
            s@ == v@.take(i as int),
        decreases v.len() - i,
    {
        s.push(v[i]);
        i += 1;
    }
    s
}

/// `pat` stands in `s` at index `at`.
pub open spec fn occurs_at(s: Seq<char>, pat: Seq<char>, at: int) -> bool {
    &&& 0 <= at
    &&& at + pat.len() <= s.len()
    &&& s.subrange(at, at + pat.len()) == pat
}

/// `pat` stands somewhere in `s`.
pub open spec fn occurs_in(s: Seq<char>, pat: Seq<char>) -> bool {
    exists|at: int| occurs_at(s, pat, at)
}

/// `s` begins with `pat`.
pub open spec fn has_prefix(s: Seq<char>, pat: Seq<char>) -> bool {
    occurs_at(s, pat, 0)
}

/// `s` ends with `pat`.
pub open spec fn has_suffix(s: Seq<char>, pat: Seq<char>) -> bool {
    occurs_at(s, pat, s.len() - pat.len())
}

/// `at` is the first index at which `pat` stands in `s`.
pub open spec fn is_leftmost(s: Seq<char>, pat: Seq<char>, at: int) -> bool {
    &&& occurs_at(s, pat, at)
    &&& forall|j: int| 0 <= j < at ==> !occurs_at(s, pat, j)
}

/// The first index at which `pat` stands in `s`, if it stands there at all.
pub open spec fn leftmost(s: Seq<char>, pat: Seq<char>) -> Option<int> {
    if occurs_in(s, pat) {
        Some(choose|at: int| is_leftmost(s, pat, at))
    } else {
        None
    }
}

/// A first occurrence is the only one that `leftmost` can name.
pub proof fn lemma_leftmost_is(s: Seq<char>, pat: Seq<char>, at: int)
    requires
        is_leftmost(s, pat, at),
    ensures
        leftmost(s, pat) == Some(at),
{
    let other = choose|k: int| is_leftmost(s, pat, k);
    assert(is_leftmost(s, pat, other));
    if other < at {
        assert(!occurs_at(s, pat, other));
    } else if at < other {
        assert(!occurs_at(s, pat, at));
    }
}

/// What `leftmost` names is a first occurrence.
pub proof fn lemma_leftmost_sound(s: Seq<char>, pat: Seq<char>)
    ensures
        match leftmost(s, pat) {
            Some(at) => is_leftmost(s, pat, at),
            None => !occurs_in(s, pat),
        },
{
    if occurs_in(s, pat) {
        let some = choose|at: int| occurs_at(s, pat, at);
        lemma_first_occurrence(s, pat, some);
    }
}

proof fn lemma_first_occurrence(s: Seq<char>, pat: Seq<char>, at: int)
    requires
        occurs_at(s, pat, at),
    ensures
        exists|k: int| is_leftmost(s, pat, k),
    decreases at,
{
    if exists|j: int| 0 <= j < at && occurs_at(s, pat, j) {
        let j = choose|j: int| 0 <= j < at && occurs_at(s, pat, j);
        lemma_first_occurrence(s, pat, j);
    } else {
        assert(is_leftmost(s, pat, at));
    }
}

/// Whether the two hold the same characters.
pub fn same(a: &[char], b: &[char]) -> (r: bool)
    ensures
        r == (a@ == b@),
{
    if a.len() != b.len() {
        return false;
    }
    let mut k: usize = 0;
    while k < a.len()
        invariant
            a.len() == b.len(),
            k <= a.len(),
            forall|j: int| 0 <= j < k ==> a[j] == b[j],
        decreases a.len() - k,
    {
        if a[k] != b[k] {
            return false;
        }
        k += 1;
    }
    assert(a@ =~= b@);
    true
}

/// Whether `pat` stands in `s` at index `at`.
pub fn matches_at(s: &[char], pat: &[char], at: usize) -> (r: bool)
    ensures
        r == occurs_at(s@, pat@, at as int),
{
    if pat.len() > s.len() || at > s.len() - pat.len() {
        return false;
    }
    let ghost window = s@.subrange(at as int, at + pat.len());
    let mut k: usize = 0;
    while k < pat.len()
        invariant
            at + pat.len() <= s.len(),
            k <= pat.len(),
            window == s@.subrange(at as int, at + pat.len()),
            forall|j: int| 0 <= j < k ==> window[j] == pat[j],
        decreases pat.len() - k,
    {
        if s[at + k] != pat[k] {
            assert(window[k as int] != pat[k as int]);
            return false;
        }
        k += 1;
    }
    assert(window =~= pat@);
    true
}

/// Whether `s` begins with `pat`.
pub fn starts_with(s: &[char], pat: &[char]) -> (r: bool)
    ensures
        r == has_prefix(s@, pat@),
{
    matches_at(s, pat, 0)
}

/// Whether `s` ends with `pat`.
pub fn ends_with(s: &[char], pat: &[char]) -> (r: bool)
    ensures
        r == has_suffix(s@, pat@),
{
    if pat.len() > s.len() {
        return false;
    }
    matches_at(s, pat, s.len() - pat.len())
}

/// The index of the first occurrence of `pat` in `s`.
pub fn find(s: &[char], pat: &[char]) -> (r: Option<usize>)
    ensures
        leftmost(s@, pat@) == (match r {
            Some(at) => Some(at as int),
            None => None::<int>,
        }),
{
    if pat.len() > s.len() {
        return None;
    }
    let last: usize = s.len() - pat.len();
    let mut at: usize = 0;
    loop
        invariant
            last == s.len() - pat.len(),
            at <= last,
            forall|j: int| 0 <= j < at ==> !occurs_at(s@, pat@, j),
        decreases last - at,
    {
        if matches_at(s, pat, at) {
            proof {
                lemma_leftmost_is(s@, pat@, at as int);
            }
            return Some(at);
        }
        if at == last {
            return None;
        }
        at += 1;
    }
}

/// Whether `pat` stands somewhere in `s`.
pub fn contains(s: &[char], pat: &[char]) -> (r: bool)
    ensures
        r == occurs_in(s@, pat@),
{
    find(s, pat).is_some()
}

/// What each piece holds.
pub open spec fn views(parts: Seq<Vec<char>>) -> Seq<Seq<char>> {
    Seq::new(parts.len(), |i: int| parts[i]@)
}

/// `ts` with `pre` put in front of its first piece.
pub open spec fn lead(pre: Seq<char>, ts: Seq<Seq<char>>) -> Seq<Seq<char>>
    recommends
        ts.len() > 0,
{
    seq![pre + ts[0]] + ts.skip(1)
}

/// The pieces that the occurrences of `sep` cut `s` into, reading from the
/// left and never using a character for two occurrences. Two occurrences in a
/// row, and one at either end, leave an empty piece. An empty `sep` cuts
/// before and after every character.
pub open spec fn tokens(s: Seq<char>, sep: Seq<char>) -> Seq<Seq<char>>
    decreases s.len(),
{
    if sep.len() == 0 {
        seq![Seq::<char>::empty()] + Seq::new(s.len(), |i: int| seq![s[i]]) + seq![
            Seq::<char>::empty(),
        ]
    } else if has_prefix(s, sep) {
        seq![Seq::<char>::empty()] + tokens(s.skip(sep.len() as int), sep)
    } else if s.len() == 0 {
        seq![Seq::<char>::empty()]
    } else {
        lead(seq![s[0]], tokens(s.skip(1), sep))
    }
}

/// The pieces in order with `sep` between neighbours.
pub open spec fn joined(parts: Seq<Seq<char>>, sep: Seq<char>) -> Seq<char>
    decreases parts.len(),
{
    if parts.len() == 0 {
        Seq::<char>::empty()
    } else if parts.len() == 1 {
        parts[0]
    } else {
        parts[0] + sep + joined(parts.skip(1), sep)
    }
}

/// `s` with every occurrence of `from`, found from the left, turned into `to`.
pub open spec fn replaced(s: Seq<char>, from: Seq<char>, to: Seq<char>) -> Seq<char> {
    joined(tokens(s, from), to)
}

/// There is always at least one piece.
pub proof fn lemma_tokens_nonempty(s: Seq<char>, sep: Seq<char>)
    ensures
        tokens(s, sep).len() >= 1,
    decreases s.len(),
{
    if sep.len() == 0 {
    } else if has_prefix(s, sep) {
        lemma_tokens_nonempty(s.skip(sep.len() as int), sep);
    } else if s.len() == 0 {
    } else {
        lemma_tokens_nonempty(s.skip(1), sep);
    }
}

proof fn lemma_lead_empty(ts: Seq<Seq<char>>)
    requires
        ts.len() > 0,
    ensures
        lead(Seq::<char>::empty(), ts) == ts,
{
    assert(Seq::<char>::empty() + ts[0] =~= ts[0]);
    assert(lead(Seq::<char>::empty(), ts) =~= ts);
}

proof fn lemma_lead_break(pre: Seq<char>, ts: Seq<Seq<char>>)
    ensures
        lead(pre, seq![Seq::<char>::empty()] + ts) == seq![pre] + ts,
{
    let with_break = seq![Seq::<char>::empty()] + ts;
    assert(pre + with_break[0] =~= pre);
    assert(with_break.skip(1) =~= ts);
}

proof fn lemma_lead_push(pre: Seq<char>, c: char, ts: Seq<Seq<char>>)
    requires
        ts.len() > 0,
    ensures
        lead(pre, lead(seq![c], ts)) == lead(pre.push(c), ts),
{
    let inner = lead(seq![c], ts);
    assert(pre + inner[0] =~= pre.push(c) + ts[0]);
    assert(inner.skip(1) =~= ts.skip(1));
}

proof fn lemma_views_push(parts: Seq<Vec<char>>, one: Vec<char>)
    ensures
        views(parts.push(one)) == views(parts).push(one@),
{
    assert(views(parts.push(one)) =~= views(parts).push(one@));
}

/// Joining one more piece puts `sep` and the piece at the end.
pub proof fn lemma_joined_push(parts: Seq<Seq<char>>, sep: Seq<char>, one: Seq<char>)
    ensures
        joined(parts.push(one), sep) == if parts.len() == 0 {
            one
        } else {
            joined(parts, sep) + sep + one
        },
    decreases parts.len(),
{
    let grown = parts.push(one);
    if parts.len() == 0 {
    } else if parts.len() == 1 {
        assert(grown.skip(1) =~= seq![one]);
        assert(joined(grown.skip(1), sep) == one);
    } else {
        lemma_joined_push(parts.skip(1), sep, one);
        assert(grown.skip(1) =~= parts.skip(1).push(one));
        assert(parts[0] + sep + (joined(parts.skip(1), sep) + sep + one) =~= (parts[0] + sep
            + joined(parts.skip(1), sep)) + sep + one);
    }
}

/// Adds the characters of `src` to the end of `out`.
pub fn append(out: &mut Vec<char>, src: &[char])
    ensures
        final(out)@ == old(out)@ + src@,
{
    let mut k: usize = 0;
    while k < src.len()
        invariant
            k <= src.len(),
            out@ == old(out)@ + src@.take(k as int),
        decreases src.len() - k,
    {
        out.push(src[k]);
        k += 1;
    }
}

/// Cuts `s` at the occurrences of `sep`.
pub fn split(s: &[char], sep: &[char]) -> (out: Vec<Vec<char>>)
    ensures
        views(out@) == tokens(s@, sep@),
{
    let mut out: Vec<Vec<char>> = Vec::new();
    if sep.len() == 0 {
        out.push(Vec::new());
        let mut k: usize = 0;
        while k < s.len()
            invariant
                k <= s.len(),
                out.len() == k + 1,
                out[0]@ == Seq::<char>::empty(),
                forall|j: int| 0 <= j < k ==> (#[trigger] out[j + 1])@ == seq![s[j]],
            decreases s.len() - k,
        {
            let mut one: Vec<char> = Vec::new();
            one.push(s[k]);
            out.push(one);
            k += 1;
        }
        out.push(Vec::new());
        proof {
            let want = tokens(s@, sep@);
            assert(want.len() == out.len());
            assert forall|j: int| 0 <= j < out.len() implies views(out@)[j] == want[j] by {
                if 1 <= j <= s.len() {
                    assert(out[(j - 1) + 1]@ == seq![s[j - 1]]);
                }
            }
            assert(views(out@) =~= want);
        }
        return out;
    }
    let mut cur: Vec<char> = Vec::new();
    let mut i: usize = 0;
    proof {
        lemma_tokens_nonempty(s@, sep@);
        lemma_lead_empty(tokens(s@, sep@));
        assert(s@.skip(0) =~= s@);
        assert(views(out@) + tokens(s@, sep@) =~= tokens(s@, sep@));
    }
    while i < s.len()
        invariant
            sep.len() > 0,
            i <= s.len(),
            tokens(s@, sep@) == views(out@) + lead(cur@, tokens(s@.skip(i as int), sep@)),
        decreases s.len() - i,
    {
        let ghost rest = s@.skip(i as int);
        if matches_at(s, sep, i) {
            proof {
                let after = s@.skip(i + sep.len());
                assert(rest.subrange(0, sep.len() as int) =~= s@.subrange(i as int, i + sep.len()));
                assert(rest.skip(sep.len() as int) =~= after);
                lemma_tokens_nonempty(after, sep@);
                lemma_lead_break(cur@, tokens(after, sep@));
                lemma_lead_empty(tokens(after, sep@));
                lemma_views_push(out@, cur);
                assert(views(out@) + (seq![cur@] + tokens(after, sep@)) =~= views(out@).push(cur@)
                    + tokens(after, sep@));
            }
            out.push(cur);
            cur = Vec::new();
            i += sep.len();
        } else {
            proof {
                let after = s@.skip(i + 1);
                if i + sep.len() <= s.len() {
                    assert(rest.subrange(0, sep.len() as int) =~= s@.subrange(
                        i as int,
                        i + sep.len(),
                    ));
                }
                assert(rest.skip(1) =~= after);
                lemma_tokens_nonempty(after, sep@);
                lemma_lead_push(cur@, s[i as int], tokens(after, sep@));
            }
            cur.push(s[i]);
            i += 1;
        }
    }
    proof {
        assert(s@.skip(i as int) =~= Seq::<char>::empty());
        assert(lead(cur@, seq![Seq::<char>::empty()]) =~= seq![cur@]);
        lemma_views_push(out@, cur);
    }
    out.push(cur);
    out
}

/// Puts the pieces together with `sep` between them.
pub fn join(parts: &Vec<Vec<char>>, sep: &[char]) -> (out: Vec<char>)
    ensures
        out@ == joined(views(parts@), sep@),
{
    let mut out: Vec<char> = Vec::new();
    let mut k: usize = 0;
    proof {
        assert(views(parts@).take(0) =~= Seq::<Seq<char>>::empty());
    }
    while k < parts.len()
        invariant
            k <= parts.len(),
            out@ == joined(views(parts@).take(k as int), sep@),
        decreases parts.len() - k,
    {
        proof {
            let done = views(parts@).take(k as int);
            lemma_joined_push(done, sep@, parts[k as int]@);
            assert(views(parts@).take(k + 1) =~= done.push(parts[k as int]@));
        }
        if k > 0 {
            append(&mut out, sep);
        }
        append(&mut out, parts[k].as_slice());
        k += 1;
    }
    proof {
        assert(views(parts@).take(k as int) =~= views(parts@));
    }
    out
}

/// Turns every occurrence of `from` in `s` into `to`.
pub fn replace(s: &[char], from: &[char], to: &[char]) -> (out: Vec<char>)
    ensures
        out@ == replaced(s@, from@, to@),
{
    let parts = split(s, from);
    join(&parts, to)
}

/// The characters that Unicode gives the property White_Space.
pub open spec fn is_space(c: char) -> bool {
    let n = c as u32;
    ||| 0x09 <= n <= 0x0D
    ||| n == 0x20
    ||| n == 0x85
    ||| n == 0xA0
    ||| n == 0x1680
    ||| 0x2000 <= n <= 0x200A
    ||| n == 0x2028
    ||| n == 0x2029
    ||| n == 0x202F
    ||| n == 0x205F
    ||| n == 0x3000
}

/// `s` without the white space that it begins with.
pub open spec fn without_leading_space(s: Seq<char>) -> Seq<char>
    decreases s.len(),
{
    if s.len() > 0 && is_space(s[0]) {
        without_leading_space(s.skip(1))
    } else {
        s
    }
}

/// `s` after `pat` has been taken from its front as often as it stands there.
/// An empty `pat` takes nothing.
pub open spec fn without_leading(s: Seq<char>, pat: Seq<char>) -> Seq<char>
    decreases s.len(),
{
    if pat.len() > 0 && has_prefix(s, pat) {
        without_leading(s.skip(pat.len() as int), pat)
    } else {
        s
    }
}

/// The pieces that hold at least one character.
pub open spec fn solid(parts: Seq<Seq<char>>) -> Seq<Seq<char>> {
    parts.filter(|p: Seq<char>| p.len() > 0)
}

/// The pieces after the first `n`; none where there are no more than `n`.
pub open spec fn after_first(parts: Seq<Seq<char>>, n: int) -> Seq<Seq<char>> {
    if 0 <= n <= parts.len() {
        parts.skip(n)
    } else {
        Seq::empty()
    }
}

/// The pieces before the last `n`; none where there are no more than `n`.
pub open spec fn before_last(parts: Seq<Seq<char>>, n: int) -> Seq<Seq<char>> {
    if 0 <= n <= parts.len() {
        parts.take(parts.len() - n)
    } else {
        Seq::empty()
    }
}

/// The piece at index `n`, if there are that many.
pub open spec fn piece(parts: Seq<Seq<char>>, n: int) -> Option<Seq<char>> {
    if 0 <= n < parts.len() {
        Some(parts[n])
    } else {
        None
    }
}

/// Whether the character is white space.
pub fn is_whitespace(c: char) -> (r: bool)
    ensures
        r == is_space(c),
{
    let n: u32 = c as u32;
    (0x09 <= n && n <= 0x0D) || n == 0x20 || n == 0x85 || n == 0xA0 || n == 0x1680 || (0x2000 <= n
        && n <= 0x200A) || n == 0x2028 || n == 0x2029 || n == 0x202F || n == 0x205F || n == 0x3000
}

/// A copy of the characters from index `from` on.
pub fn tail(s: &[char], from: usize) -> (out: Vec<char>)
    requires
        from <= s.len(),
    ensures
        out@ == s@.skip(from as int),
{
    let mut out: Vec<char> = Vec::new();
    let mut k: usize = from;
    while k < s.len()
        invariant
            from <= k <= s.len(),
            out@ == s@.subrange(from as int, k as int),
        decreases s.len() - k,
    {
        out.push(s[k]);
        k += 1;
    }
    out
}

/// A copy of the characters before index `to`.
pub fn head(s: &[char], to: usize) -> (out: Vec<char>)
    requires
        to <= s.len(),
    ensures
        out@ == s@.take(to as int),
{
    let mut out: Vec<char> = Vec::new();
    let mut k: usize = 0;
    while k < to
        invariant
            k <= to <= s.len(),
            out@ == s@.take(k as int),
        decreases to - k,
    {
        out.push(s[k]);
        k += 1;
    }
    out
}

/// Takes the white space off the front of `s`.
pub fn trim_start(s: &[char]) -> (out: Vec<char>)
    ensures
        out@ == without_leading_space(s@),
{
    let mut i: usize = 0;
    proof {
        assert(s@.skip(0) =~= s@);
    }
    while i < s.len() && is_whitespace(s[i])
        invariant
            i <= s.len(),
            without_leading_space(s@) == without_leading_space(s@.skip(i as int)),
        decreases s.len() - i,
    {
        proof {
            assert(s@.skip(i as int).skip(1) =~= s@.skip(i + 1));
        }
        i += 1;
    }
    tail(s, i)
}

/// Takes `pat` off the front of `s` as often as it stands there.
pub fn trim_start_matches(s: &[char], pat: &[char]) -> (out: Vec<char>)
    ensures
        out@ == without_leading(s@, pat@),
{
    let mut i: usize = 0;
    proof {
        assert(s@.skip(0) =~= s@);
    }
    if pat.len() == 0 {
        return tail(s, 0);
    }
    while matches_at(s, pat, i)
        invariant
            pat.len() > 0,
            i <= s.len(),
            without_leading(s@, pat@) == without_leading(s@.skip(i as int), pat@),
        decreases s.len() - i,
    {
        proof {
            let rest = s@.skip(i as int);
            assert(rest.subrange(0, pat.len() as int) =~= s@.subrange(i as int, i + pat.len()));
            assert(rest.skip(pat.len() as int) =~= s@.skip(i + pat.len()));
        }
        i += pat.len();
    }
    proof {
        let rest = s@.skip(i as int);
        if i + pat.len() <= s.len() {
            assert(rest.subrange(0, pat.len() as int) =~= s@.subrange(i as int, i + pat.len()));
        }
    }
    tail(s, i)
}

/// Keeps the pieces that hold something.
pub fn keep_solid(parts: &Vec<Vec<char>>) -> (out: Vec<Vec<char>>)
    ensures
        views(out@) == solid(views(parts@)),
{
    let mut out: Vec<Vec<char>> = Vec::new();
    let mut k: usize = 0;
    let ghost all = views(parts@);
    let ghost nonempty = |p: Seq<char>| p.len() > 0;
    proof {
        assert(all.take(0) =~= Seq::<Seq<char>>::empty());
        Seq::<Seq<char>>::empty().lemma_all_neg_filter_empty(nonempty);
        assert(views(out@) =~= Seq::<Seq<char>>::empty());
    }
    while k < parts.len()
        invariant
            k <= parts.len(),
            all == views(parts@),
            nonempty == |p: Seq<char>| p.len() > 0,
            views(out@) == all.take(k as int).filter(nonempty),
        decreases parts.len() - k,
    {
        proof {
            let done = all.take(k as int);
            assert(all.take(k + 1) =~= done.push(parts[k as int]@));
            Seq::lemma_filter_push(done, parts[k as int]@, nonempty);
        }
        if parts[k].len() > 0 {
            let one = tail(parts[k].as_slice(), 0);
            proof {
                assert(parts[k as int]@.skip(0) =~= parts[k as int]@);
                lemma_views_push(out@, one);
            }
            out.push(one);
        }
        k += 1;
    }
    proof {
        assert(all.take(k as int) =~= all);
    }
    out
}

/// Leaves out the first `n` pieces.
pub fn skip_first(parts: &Vec<Vec<char>>, n: usize) -> (out: Vec<Vec<char>>)
    ensures
        views(out@) == after_first(views(parts@), n as int),
{
    let mut out: Vec<Vec<char>> = Vec::new();
    if n > parts.len() {
        assert(views(out@) =~= Seq::<Seq<char>>::empty());
        return out;
    }
    let mut k: usize = n;
    while k < parts.len()
        invariant
            n <= k <= parts.len(),
            views(out@) == views(parts@).subrange(n as int, k as int),
        decreases parts.len() - k,
    {
        let one = tail(parts[k].as_slice(), 0);
        proof {
            assert(parts[k as int]@.skip(0) =~= parts[k as int]@);
            lemma_views_push(out@, one);
            assert(views(parts@).subrange(n as int, k + 1) =~= views(parts@).subrange(
                n as int,
                k as int,
            ).push(one@));
        }
        out.push(one);
        k += 1;
    }
    out
}

/// Leaves out the last `n` pieces.
pub fn drop_last(parts: &Vec<Vec<char>>, n: usize) -> (out: Vec<Vec<char>>)
    ensures
        views(out@) == before_last(views(parts@), n as int),
{
    let mut out: Vec<Vec<char>> = Vec::new();
    if n > parts.len() {
        assert(views(out@) =~= Seq::<Seq<char>>::empty());
        return out;
    }
    let keep: usize = parts.len() - n;
    let mut k: usize = 0;
    while k < keep
        invariant
            k <= keep <= parts.len(),
            views(out@) == views(parts@).take(k as int),
        decreases keep - k,
    {
        let one = tail(parts[k].as_slice(), 0);
        proof {
            assert(parts[k as int]@.skip(0) =~= parts[k as int]@);
            lemma_views_push(out@, one);
            assert(views(parts@).take(k + 1) =~= views(parts@).take(k as int).push(one@));
        }
        out.push(one);
        k += 1;
    }
    out
}

/// The pieces from the last to the first.
pub fn reversed(parts: &Vec<Vec<char>>) -> (out: Vec<Vec<char>>)
    ensures
        views(out@) == views(parts@).reverse(),
{
    let mut out: Vec<Vec<char>> = Vec::new();
    let mut k: usize = parts.len();
    while k > 0
        invariant
            k <= parts.len(),
            out.len() == parts.len() - k,
            forall|j: int| 0 <= j < out.len() ==> out[j]@ == parts[parts.len() - 1 - j]@,
        decreases k,
    {
        k -= 1;
        let one = tail(parts[k].as_slice(), 0);
        proof {
            assert(parts[k as int]@.skip(0) =~= parts[k as int]@);
        }
        out.push(one);
    }
    assert(views(out@) =~= views(parts@).reverse());
    out
}

/// A copy of the piece at index `n`.
pub fn nth(parts: &Vec<Vec<char>>, n: usize) -> (out: Option<Vec<char>>)
    ensures
        piece(views(parts@), n as int) == (match out {
            Some(p) => Some(p@),
            None => None::<Seq<char>>,
        }),
{
    if n < parts.len() {
        let one = tail(parts[n].as_slice(), 0);
        proof {
            assert(parts[n as int]@.skip(0) =~= parts[n as int]@);
        }
        Some(one)
    } else {
        None
    }
}

/// What stands before and after the first occurrence of `pat` in `s`.
pub open spec fn cut_once(s: Seq<char>, pat: Seq<char>) -> Option<(Seq<char>, Seq<char>)> {
    match leftmost(s, pat) {
        Some(at) => Some((s.take(at), s.skip(at + pat.len()))),
        None => None,
    }
}

/// Cuts `s` in two at the first occurrence of `pat`.
pub fn split_once(s: &[char], pat: &[char]) -> (out: Option<(Vec<char>, Vec<char>)>)
    ensures
        cut_once(s@, pat@) == (match out {
            Some((before, after)) => Some((before@, after@)),
            None => None::<(Seq<char>, Seq<char>)>,
        }),
{
    proof {
        lemma_leftmost_sound(s@, pat@);
    }
    match find(s, pat) {
        Some(at) => {
            let len: usize = s.len();
            assert(at + pat.len() <= len) by {
                assert(occurs_at(s@, pat@, at as int));
            }
            Some((head(s, at), tail(s, at + pat.len())))
        },
        None => None,
    }
}

/// A word has at least one character, and none of them is `sep`.
pub open spec fn is_word(w: Seq<char>, sep: char) -> bool {
    w.len() > 0 && !w.contains(sep)
}

/// Every piece is a word.
pub open spec fn all_words(parts: Seq<Seq<char>>, sep: char) -> bool {
    forall|i: int| 0 <= i < parts.len() ==> is_word(#[trigger] parts[i], sep)
}

proof fn lemma_lead_joined(pre: Seq<char>, ts: Seq<Seq<char>>, sep: Seq<char>)
    requires
        ts.len() > 0,
    ensures
        joined(lead(pre, ts), sep) == pre + joined(ts, sep),
{
    let led = lead(pre, ts);
    if ts.len() == 1 {
        assert(led =~= seq![pre + ts[0]]);
    } else {
        assert(led.skip(1) =~= ts.skip(1));
        assert((pre + ts[0]) + sep + joined(ts.skip(1), sep) =~= pre + (ts[0] + sep + joined(
            ts.skip(1),
            sep,
        )));
    }
}

/// Cutting a text at a separator and joining the pieces with the same
/// separator gives the text back.
pub proof fn lemma_joined_tokens(s: Seq<char>, sep: Seq<char>)
    requires
        sep.len() > 0,
    ensures
        joined(tokens(s, sep), sep) == s,
    decreases s.len(),
{
    if has_prefix(s, sep) {
        let rest = s.skip(sep.len() as int);
        lemma_joined_tokens(rest, sep);
        lemma_tokens_nonempty(rest, sep);
        let cut = seq![Seq::<char>::empty()] + tokens(rest, sep);
        assert(cut.skip(1) =~= tokens(rest, sep));
        assert(Seq::<char>::empty() + sep + rest =~= s);
    } else if s.len() == 0 {
    } else {
        lemma_joined_tokens(s.skip(1), sep);
        lemma_tokens_nonempty(s.skip(1), sep);
        lemma_lead_joined(seq![s[0]], tokens(s.skip(1), sep), sep);
        assert(seq![s[0]] + s.skip(1) =~= s);
    }
}

/// What is left of a text without `sep` after its first character holds no
/// `sep` either.
proof fn lemma_rest_of_word(w: Seq<char>, sep: char)
    requires
        w.len() > 0,
        !w.contains(sep),
    ensures
        w[0] != sep,
        !w.skip(1).contains(sep),
{
    assert(w.contains(w[0]));
    if w.skip(1).contains(sep) {
        let i = choose|i: int| 0 <= i < w.skip(1).len() && w.skip(1)[i] == sep;
        assert(w[i + 1] == sep);
        assert(w.contains(sep));
    }
}

/// A text without the separator is one piece.
pub proof fn lemma_tokens_of_word(w: Seq<char>, sep: char)
    requires
        !w.contains(sep),
    ensures
        tokens(w, seq![sep]) == seq![w],
    decreases w.len(),
{
    if w.len() == 0 {
        assert(w =~= Seq::<char>::empty());
    } else {
        lemma_rest_of_word(w, sep);
        assert(!has_prefix(w, seq![sep])) by {
            if has_prefix(w, seq![sep]) {
                assert(w.subrange(0, 1)[0] == seq![sep][0]);
            }
        }
        lemma_tokens_of_word(w.skip(1), sep);
        assert(seq![w[0]] + w.skip(1) =~= w);
        assert(lead(seq![w[0]], seq![w.skip(1)]) =~= seq![w]);
    }
}

/// A text without the separator, the separator, and more text: the first
/// piece is the text before the separator, and the others are the pieces of
/// what follows it.
pub proof fn lemma_tokens_after_word(w: Seq<char>, sep: char, rest: Seq<char>)
    requires
        !w.contains(sep),
    ensures
        tokens(w + seq![sep] + rest, seq![sep]) == seq![w] + tokens(rest, seq![sep]),
    decreases w.len(),
{
    let s = w + seq![sep] + rest;
    if w.len() == 0 {
        assert(s.subrange(0, 1) =~= seq![sep]);
        assert(s.skip(1) =~= rest);
        assert(w =~= Seq::<char>::empty());
    } else {
        lemma_rest_of_word(w, sep);
        assert(!has_prefix(s, seq![sep])) by {
            if has_prefix(s, seq![sep]) {
                assert(s.subrange(0, 1)[0] == seq![sep][0]);
            }
        }
        lemma_tokens_after_word(w.skip(1), sep, rest);
        assert(s.skip(1) =~= w.skip(1) + seq![sep] + rest);
        lemma_tokens_nonempty(rest, seq![sep]);
        let after = tokens(rest, seq![sep]);
        assert(seq![w[0]] + w.skip(1) =~= w);
        assert(lead(seq![w[0]], seq![w.skip(1)] + after) =~= seq![w] + after);
    }
}

/// Texts without the separator, joined with it and cut at it again, come
/// back as they were.
pub proof fn lemma_tokens_of_joined(parts: Seq<Seq<char>>, sep: char)
    requires
        parts.len() > 0,
        forall|i: int| 0 <= i < parts.len() ==> !(#[trigger] parts[i]).contains(sep),
    ensures
        tokens(joined(parts, seq![sep]), seq![sep]) == parts,
    decreases parts.len(),
{
    if parts.len() == 1 {
        lemma_tokens_of_word(parts[0], sep);
        assert(seq![parts[0]] =~= parts);
    } else {
        let rest = parts.skip(1);
        assert forall|i: int| 0 <= i < rest.len() implies !(#[trigger] rest[i]).contains(sep) by {
            assert(rest[i] == parts[i + 1]);
        }
        lemma_tokens_of_joined(rest, sep);
        lemma_tokens_after_word(parts[0], sep, joined(rest, seq![sep]));
        assert(seq![parts[0]] + rest =~= parts);
    }
}

/// Where every piece is a word, none is dropped as empty.
pub proof fn lemma_solid_words(parts: Seq<Seq<char>>, sep: char)
    requires
        all_words(parts, sep),
    ensures
        solid(parts) == parts,
    decreases parts.len(),
{
    let nonempty = |p: Seq<char>| p.len() > 0;
    if parts.len() == 0 {
        parts.lemma_all_neg_filter_empty(nonempty);
        assert(parts =~= Seq::<Seq<char>>::empty());
    } else {
        let before = parts.drop_last();
        assert forall|i: int| 0 <= i < before.len() implies is_word(#[trigger] before[i], sep) by {
            assert(before[i] == parts[i]);
        }
        lemma_solid_words(before, sep);
        assert(is_word(parts.last(), sep));
        Seq::lemma_filter_push(before, parts.last(), nonempty);
        assert(before.push(parts.last()) =~= parts);
    }
}

/// Words joined begin with the first character of the first word and end
/// with the last character of the last.
pub proof fn lemma_joined_words_ends(parts: Seq<Seq<char>>, sep: char)
    requires
        parts.len() > 0,
        all_words(parts, sep),
    ensures
        joined(parts, seq![sep]).len() > 0,
        joined(parts, seq![sep]).first() == parts.first().first(),
        joined(parts, seq![sep]).last() == parts.last().last(),
    decreases parts.len(),
{
    assert(is_word(parts[0], sep));
    if parts.len() > 1 {
        let rest = parts.skip(1);
        assert forall|i: int| 0 <= i < rest.len() implies is_word(#[trigger] rest[i], sep) by {
            assert(rest[i] == parts[i + 1]);
        }
        lemma_joined_words_ends(rest, sep);
        assert(rest.last() == parts.last());
    }
}

/// Cut at a separator of one character, no piece holds the separator.
pub proof fn lemma_tokens_hold_no_sep(s: Seq<char>, sep: char)
    ensures
        forall|i: int|
            0 <= i < tokens(s, seq![sep]).len() ==> !(#[trigger] tokens(s, seq![sep])[i]).contains(
                sep,
            ),
    decreases s.len(),
{
    let pat = seq![sep];
    let all = tokens(s, pat);
    if has_prefix(s, pat) {
        let rest = tokens(s.skip(1), pat);
        lemma_tokens_hold_no_sep(s.skip(1), sep);
        assert forall|i: int| 0 <= i < all.len() implies !(#[trigger] all[i]).contains(sep) by {
            if i > 0 {
                assert(all[i] == rest[i - 1]);
            }
        }
    } else if s.len() == 0 {
    } else {
        let rest = tokens(s.skip(1), pat);
        lemma_tokens_hold_no_sep(s.skip(1), sep);
        lemma_tokens_nonempty(s.skip(1), pat);
        assert(s[0] != sep) by {
            if s[0] == sep {
                assert(s.subrange(0, 1) =~= pat);
            }
        }
        assert forall|i: int| 0 <= i < all.len() implies !(#[trigger] all[i]).contains(sep) by {
            if i > 0 {
                assert(all[i] == rest[i]);
            } else {
                let first = seq![s[0]] + rest[0];
                assert(all[0] == first);
                if first.contains(sep) {
                    let k = choose|k: int| 0 <= k < first.len() && first[k] == sep;
                    assert(k > 0);
                    assert(rest[0][k - 1] == sep);
                    assert(rest[0].contains(sep));
                }
            }
        }
    }
}

} // verus!
