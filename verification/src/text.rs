//! Character-level text operations with their specifications: replacing,
//! trimming, splitting into words, joining.

use vstd::prelude::*;

verus! {

broadcast use vstd::string::group_string_axioms;

/// `String::push` appends one character.
pub assume_specification[ std::string::String::push ](s: &mut String, ch: char)
    ensures
        final(s)@ == old(s)@.push(ch),
;

/// The characters of a string, as a vector.
pub fn chars_of(s: &str) -> (v: Vec<char>)
    ensures
        v@ == s@,
{
    let mut v: Vec<char> = Vec::new();
    for c in it: s.chars()
        invariant
            it.seq() == s@,
            v@ == it.seq().take(it.index() as int),
    {
        v.push(c);
    }
    v
}

/// A string holding the given characters.
pub fn string_of(v: &[char]) -> (s: String)
    ensures
        s@ == v@,
{
    let mut s = String::new();
    let mut i: usize = 0;
    while i < v.len()
        invariant
            i <= v.len(),
            s@ == v@.take(i as int),
        decreases v.len() - i,
    {
        s.push(v[i]);
        i = i + 1;
    }
    s
}

/// The concatenation of `f` applied to each character of `s`, in order.
pub open spec fn map_concat(s: Seq<char>, f: spec_fn(char) -> Seq<char>) -> Seq<char>
    decreases s.len(),
{
    if s.len() == 0 {
        Seq::empty()
    } else {
        map_concat(s.drop_last(), f) + f(s.last())
    }
}

/// Replacement of every occurrence of `c` by `r`.
pub open spec fn spec_replace_char(s: Seq<char>, c: char, r: Seq<char>) -> Seq<char> {
    map_concat(s, replace_char_fn(c, r))
}

/// The character map that sends `c` to `r` and keeps every other character.
pub open spec fn replace_char_fn(c: char, r: Seq<char>) -> spec_fn(char) -> Seq<char> {
    |x: char| if x == c { r } else { seq![x] }
}

/// Extending the input by one character extends the output by its image.
pub proof fn lemma_map_concat_step(s: Seq<char>, f: spec_fn(char) -> Seq<char>, i: int)
    requires
        0 <= i < s.len(),
    ensures
        map_concat(s.take(i + 1), f) == map_concat(s.take(i), f) + f(s[i]),
{
    assert(s.take(i + 1).drop_last() =~= s.take(i));
}

/// `s` with every occurrence of the character `c` replaced by `r`.
pub fn replace_char(s: &str, c: char, r: &str) -> (res: String)
    ensures
        res@ == spec_replace_char(s@, c, r@),
{
    let ghost f = replace_char_fn(c, r@);
    let v = chars_of(s);
    let mut out = String::new();
    let mut i: usize = 0;
    while i < v.len()
        invariant
            i <= v.len(),
            v@ == s@,
            f == replace_char_fn(c, r@),
            out@ == map_concat(v@.take(i as int), f),
        decreases v.len() - i,
    {
        proof {
            lemma_map_concat_step(v@, f, i as int);
        }
        assert(f(v@[i as int]) == (if v@[i as int] == c { r@ } else { seq![v@[i as int]] }));
        if v[i] == c {
            out.append(r);
        } else {
            out.push(v[i]);
        }
        i = i + 1;
    }
    assert(v@.take(v.len() as int) =~= v@);
    out
}

/// Unicode `White_Space`, the property `char::is_whitespace` tests.
pub open spec fn is_ws(c: char) -> bool {
    let u = c as u32;
    ||| (9 <= u && u <= 13)
    ||| u == 0x20
    ||| u == 0x85
    ||| u == 0xa0
    ||| u == 0x1680
    ||| (0x2000 <= u && u <= 0x200a)
    ||| u == 0x2028
    ||| u == 0x2029
    ||| u == 0x202f
    ||| u == 0x205f
    ||| u == 0x3000
}

/// Whether `c` is white space.
pub fn is_whitespace(c: char) -> (b: bool)
    ensures
        b == is_ws(c),
{
    let u = c as u32;
    (9 <= u && u <= 13) || u == 0x20 || u == 0x85 || u == 0xa0 || u == 0x1680 || (0x2000 <= u
        && u <= 0x200a) || u == 0x2028 || u == 0x2029 || u == 0x202f || u == 0x205f || u == 0x3000
}

/// `s` without its leading white space.
pub open spec fn trim_start(s: Seq<char>) -> Seq<char>
    decreases s.len(),
{
    if s.len() > 0 && is_ws(s[0]) {
        trim_start(s.skip(1))
    } else {
        s
    }
}

/// `s` without its trailing white space.
pub open spec fn trim_end(s: Seq<char>) -> Seq<char>
    decreases s.len(),
{
    if s.len() > 0 && is_ws(s.last()) {
        trim_end(s.drop_last())
    } else {
        s
    }
}

/// `s` without leading and trailing white space, as `str::trim` gives it.
pub open spec fn spec_trim(s: Seq<char>) -> Seq<char> {
    trim_end(trim_start(s))
}

/// The characters of `v` without leading and trailing white space.
pub fn trim_chars(v: &[char]) -> (res: Vec<char>)
    ensures
        res@ == spec_trim(v@),
{
    let n = v.len();
    let mut i: usize = 0;
    assert(v@.skip(0) =~= v@);
    while i < n && is_whitespace(v[i])
        invariant
            i <= n,
            n == v@.len(),
            trim_start(v@) == trim_start(v@.skip(i as int)),
        decreases n - i,
    {
        assert(v@.skip(i as int).skip(1) =~= v@.skip(i + 1));
        i = i + 1;
    }
    assert(trim_start(v@) == v@.subrange(i as int, n as int)) by {
        assert(v@.skip(i as int) =~= v@.subrange(i as int, n as int));
    }
    let mut j: usize = n;
    while j > i && is_whitespace(v[j - 1])
        invariant
            i <= j <= n,
            n == v@.len(),
            trim_end(v@.subrange(i as int, n as int)) == trim_end(v@.subrange(i as int, j as int)),
        decreases j,
    {
        assert(v@.subrange(i as int, j as int).drop_last() =~= v@.subrange(i as int, j - 1));
        j = j - 1;
    }
    let mut res: Vec<char> = Vec::new();
    let mut k: usize = i;
    while k < j
        invariant
            i <= k <= j <= n,
            n == v@.len(),
            res@ == v@.subrange(i as int, k as int),
        decreases j - k,
    {
        res.push(v[k]);
        k = k + 1;
    }
    res
}

/// `s` without leading and trailing white space.
pub fn trim(s: &str) -> (res: String)
    ensures
        res@ == spec_trim(s@),
{
    let v = chars_of(s);
    let t = trim_chars(v.as_slice());
    string_of(t.as_slice())
}


/// Position of the first `c` in `s`, or `s.len()` when there is none.
pub open spec fn index_of(s: Seq<char>, c: char) -> int
    decreases s.len(),
{
    if s.len() == 0 {
        0
    } else if s[0] == c {
        0
    } else {
        1 + index_of(s.skip(1), c)
    }
}

/// The text before the first `c` (all of `s` when there is none): the first
/// piece `str::split(c)` yields.
pub open spec fn before(s: Seq<char>, c: char) -> Seq<char> {
    s.take(index_of(s, c))
}

/// The text after the first `c` (empty when there is none).
pub open spec fn after(s: Seq<char>, c: char) -> Seq<char> {
    if index_of(s, c) < s.len() {
        s.skip(index_of(s, c) + 1)
    } else {
        Seq::empty()
    }
}

/// The second piece `str::split(c)` yields, for a string that holds `c`.
pub open spec fn second_piece(s: Seq<char>, c: char) -> Seq<char> {
    before(after(s, c), c)
}

/// `index_of` is the first position holding `c`.
pub proof fn lemma_index_of(s: Seq<char>, c: char)
    ensures
        0 <= index_of(s, c) <= s.len(),
        forall|j: int| 0 <= j < index_of(s, c) ==> s[j] != c,
        index_of(s, c) < s.len() ==> s[index_of(s, c)] == c,
        index_of(s, c) < s.len() <==> s.contains(c),
    decreases s.len(),
{
    if s.len() > 0 && s[0] != c {
        lemma_index_of(s.skip(1), c);
        assert forall|j: int| 0 <= j < index_of(s, c) implies s[j] != c by {
            if j > 0 {
                assert(s[j] == s.skip(1)[j - 1]);
            }
        }
        if s.contains(c) {
            let k = choose|k: int| 0 <= k < s.len() && s[k] == c;
            assert(s.skip(1)[k - 1] == c);
        }
        if s.skip(1).contains(c) {
            let k = choose|k: int| 0 <= k < s.skip(1).len() && s.skip(1)[k] == c;
            assert(s[k + 1] == c);
        }
    } else if s.len() > 0 {
        assert(s[0] == c);
    }
}

/// The first position `i` holding `c`, characterised by what lies before it.
pub proof fn lemma_index_of_is(s: Seq<char>, c: char, i: int)
    requires
        0 <= i <= s.len(),
        forall|j: int| 0 <= j < i ==> s[j] != c,
        i == s.len() || s[i] == c,
    ensures
        index_of(s, c) == i,
{
    lemma_index_of(s, c);
    if index_of(s, c) < i {
        assert(s[index_of(s, c)] == c);
    }
}

/// Position of the first `c` in `v`, or `v.len()` when there is none.
pub fn find_char(v: &[char], c: char) -> (i: usize)
    ensures
        i == index_of(v@, c),
{
    let mut i: usize = 0;
    while i < v.len() && v[i] != c
        invariant
            i <= v.len(),
            forall|j: int| 0 <= j < i ==> v@[j] != c,
        decreases v.len() - i,
    {
        i = i + 1;
    }
    proof {
        lemma_index_of_is(v@, c, i as int);
    }
    i
}

/// The characters `v[from..to]` as a vector.
pub fn sub_chars(v: &[char], from: usize, to: usize) -> (res: Vec<char>)
    requires
        from <= to <= v.len(),
    ensures
        res@ == v@.subrange(from as int, to as int),
{
    let mut res: Vec<char> = Vec::new();
    let mut k: usize = from;
    while k < to
        invariant
            from <= k <= to <= v.len(),
            res@ == v@.subrange(from as int, k as int),
        decreases to - k,
    {
        res.push(v[k]);
        k = k + 1;
    }
    res
}

/// The text before the first `c`.
pub fn before_char(v: &[char], c: char) -> (res: Vec<char>)
    ensures
        res@ == before(v@, c),
{
    let i = find_char(v, c);
    proof {
        lemma_index_of(v@, c);
    }
    sub_chars(v, 0, i)
}

/// The text after the first `c`.
pub fn after_char(v: &[char], c: char) -> (res: Vec<char>)
    ensures
        res@ == after(v@, c),
{
    let i = find_char(v, c);
    proof {
        lemma_index_of(v@, c);
    }
    if i < v.len() {
        let r = sub_chars(v, i + 1, v.len());
        assert(r@ =~= v@.skip(i + 1));
        r
    } else {
        Vec::new()
    }
}

/// Whether `v` holds `c`.
pub fn has_char(v: &[char], c: char) -> (b: bool)
    ensures
        b == v@.contains(c),
{
    let i = find_char(v, c);
    proof {
        lemma_index_of(v@, c);
    }
    i < v.len()
}

/// Whether the characters of `a` and `b` are the same.
pub fn same_chars(a: &[char], b: &[char]) -> (res: bool)
    ensures
        res == (a@ == b@),
{
    if a.len() != b.len() {
        return false;
    }
    let mut i: usize = 0;
    while i < a.len()
        invariant
            i <= a.len() == b.len(),
            forall|j: int| 0 <= j < i ==> a@[j] == b@[j],
        decreases a.len() - i,
    {
        if a[i] != b[i] {
            return false;
        }
        i = i + 1;
    }
    assert(a@ =~= b@);
    true
}

/// Appends the characters of `v` to `out`.
pub fn push_chars(out: &mut String, v: &[char])
    ensures
        final(out)@ == old(out)@ + v@,
{
    let mut i: usize = 0;
    while i < v.len()
        invariant
            i <= v.len(),
            out@ == old(out)@ + v@.take(i as int),
        decreases v.len() - i,
    {
        out.push(v[i]);
        i = i + 1;
        assert(v@.take(i as int) =~= v@.take(i - 1).push(v@[i - 1]));
    }
    assert(v@.take(v.len() as int) =~= v@);
}


/// Every non-overlapping occurrence of `pat` in `s`, taken from the left,
/// replaced by `rep`: what `str::replace` gives for a non-empty pattern.
pub open spec fn spec_replace_str(s: Seq<char>, pat: Seq<char>, rep: Seq<char>) -> Seq<char>
    decreases s.len(),
{
    if pat.len() == 0 || s.len() == 0 {
        s
    } else if pat.len() <= s.len() && s.take(pat.len() as int) == pat {
        rep + spec_replace_str(s.skip(pat.len() as int), pat, rep)
    } else {
        seq![s[0]] + spec_replace_str(s.skip(1), pat, rep)
    }
}

/// Whether `pat` occurs in `v` at position `i`.
fn occurs_at(v: &[char], i: usize, pat: &[char]) -> (b: bool)
    requires
        i <= v.len(),
    ensures
        b == (pat@.len() <= v@.len() - i && v@.skip(i as int).take(pat@.len() as int) == pat@),
{
    if pat.len() > v.len() - i {
        return false;
    }
    let mut k: usize = 0;
    while k < pat.len()
        invariant
            k <= pat.len() <= v.len() - i,
            forall|j: int| 0 <= j < k ==> v@[i + j] == pat@[j],
        decreases pat.len() - k,
    {
        if v[i + k] != pat[k] {
            assert(v@.skip(i as int).take(pat@.len() as int)[k as int] != pat@[k as int]);
            return false;
        }
        k = k + 1;
    }
    assert(v@.skip(i as int).take(pat@.len() as int) =~= pat@);
    true
}

/// `s` with every occurrence of the non-empty `pat` replaced by `rep` (see `spec_replace_str`).
pub fn replace_str(s: &str, pat: &str, rep: &str) -> (res: String)
    requires
        pat@.len() > 0,
    ensures
        res@ == spec_replace_str(s@, pat@, rep@),
{
    let v = chars_of(s);
    let p = chars_of(pat);
    let mut out = String::new();
    let mut i: usize = 0;
    assert(v@.skip(0) =~= v@);
    while i < v.len()
        invariant
            i <= v.len(),
            v@ == s@,
            p@ == pat@,
            p@.len() > 0,
            spec_replace_str(s@, pat@, rep@) == out@ + spec_replace_str(v@.skip(i as int), pat@, rep@),
        decreases v.len() - i,
    {
        let ghost rest = v@.skip(i as int);
        if occurs_at(&v, i, &p) {
            out.append(rep);
            assert(rest.skip(p@.len() as int) =~= v@.skip(i + p.len()));
            i = i + p.len();
        } else {
            out.push(v[i]);
            assert(rest.skip(1) =~= v@.skip(i + 1));
            assert(rest[0] == v@[i as int]);
            i = i + 1;
        }
    }
    assert(v@.skip(i as int) =~= Seq::<char>::empty());
    out
}

/// The pieces joined with `sep` between neighbours.
pub open spec fn join(list: Seq<Seq<char>>, sep: Seq<char>) -> Seq<char>
    decreases list.len(),
{
    if list.len() == 0 {
        Seq::empty()
    } else if list.len() == 1 {
        list[0]
    } else {
        join(list.drop_last(), sep) + sep + list.last()
    }
}

/// The views of a sequence of strings.
pub open spec fn views(v: Seq<String>) -> Seq<Seq<char>> {
    v.map_values(|s: String| s@)
}

/// The strings of `list` joined with `sep` between neighbours.
pub fn join_strings(list: &Vec<String>, sep: &str) -> (res: String)
    ensures
        res@ == join(views(list@), sep@),
{
    let mut res = String::new();
    let mut i: usize = 0;
    while i < list.len()
        invariant
            i <= list.len(),
            res@ == join(views(list@).take(i as int), sep@),
        decreases list.len() - i,
    {
        assert(views(list@).take(i + 1).drop_last() =~= views(list@).take(i as int));
        if i != 0 {
            res.append(sep);
        } else {
            assert(views(list@).take(0) =~= Seq::<Seq<char>>::empty());
        }
        res.append(list[i].as_str());
        i = i + 1;
    }
    assert(views(list@).take(list.len() as int) =~= views(list@));
    res
}


/// The words found in `s` so far, and the word being read, scanning left to right.
pub open spec fn words_state(s: Seq<char>) -> (Seq<Seq<char>>, Seq<char>)
    decreases s.len(),
{
    if s.len() == 0 {
        (Seq::empty(), Seq::empty())
    } else {
        let (ws, cur) = words_state(s.drop_last());
        let c = s.last();
        if is_ws(c) {
            if cur.len() > 0 {
                (ws.push(cur), Seq::empty())
            } else {
                (ws, cur)
            }
        } else {
            (ws, cur.push(c))
        }
    }
}

/// The maximal runs of non-white-space characters of `s`, in order: what
/// `str::split_whitespace` yields.
pub open spec fn spec_words(s: Seq<char>) -> Seq<Seq<char>> {
    let (ws, cur) = words_state(s);
    if cur.len() > 0 {
        ws.push(cur)
    } else {
        ws
    }
}

/// The words of `v` (see `spec_words`).
pub fn split_whitespace(v: &[char]) -> (res: Vec<Vec<char>>)
    ensures
        res@.map_values(|w: Vec<char>| w@) == spec_words(v@),
{
    let mut ws: Vec<Vec<char>> = Vec::new();
    let mut cur: Vec<char> = Vec::new();
    let mut i: usize = 0;
    while i < v.len()
        invariant
            i <= v.len(),
            words_state(v@.take(i as int)) == (ws@.map_values(|w: Vec<char>| w@), cur@),
        decreases v.len() - i,
    {
        assert(v@.take(i + 1).drop_last() =~= v@.take(i as int));
        let c = v[i];
        if is_whitespace(c) {
            if cur.len() > 0 {
                let ghost old_ws = ws@;
                ws.push(cur);
                cur = Vec::new();
                assert(ws@.map_values(|w: Vec<char>| w@) =~= old_ws.map_values(|w: Vec<char>| w@).push(
                    ws@.last()@,
                ));
            }
        } else {
            cur.push(c);
        }
        i = i + 1;
    }
    assert(v@.take(v.len() as int) =~= v@);
    if cur.len() > 0 {
        let ghost old_ws = ws@;
        ws.push(cur);
        assert(ws@.map_values(|w: Vec<char>| w@) =~= old_ws.map_values(|w: Vec<char>| w@).push(
            ws@.last()@,
        ));
    }
    ws
}

/// The character vectors of `list` joined with `sep` between neighbours.
pub fn join_char_vecs(list: &Vec<Vec<char>>, sep: &str) -> (res: String)
    ensures
        res@ == join(list@.map_values(|w: Vec<char>| w@), sep@),
{
    let ghost l = list@.map_values(|w: Vec<char>| w@);
    let mut res = String::new();
    let mut i: usize = 0;
    while i < list.len()
        invariant
            i <= list.len(),
            l == list@.map_values(|w: Vec<char>| w@),
            res@ == join(l.take(i as int), sep@),
        decreases list.len() - i,
    {
        assert(l.take(i + 1).drop_last() =~= l.take(i as int));
        if i != 0 {
            res.append(sep);
        } else {
            assert(l.take(0) =~= Seq::<Seq<char>>::empty());
        }
        push_chars(&mut res, list[i].as_slice());
        i = i + 1;
    }
    assert(l.take(list.len() as int) =~= l);
    res
}


/// `trim_start` drops a prefix, and what it leaves does not start with white space.
proof fn lemma_trim_start(s: Seq<char>) -> (k: int)
    ensures
        0 <= k <= s.len(),
        trim_start(s) == s.skip(k),
        trim_start(s).len() > 0 ==> !is_ws(trim_start(s)[0]),
    decreases s.len(),
{
    if s.len() > 0 && is_ws(s[0]) {
        let k1 = lemma_trim_start(s.skip(1));
        assert(s.skip(1).skip(k1) =~= s.skip(k1 + 1));
        k1 + 1
    } else {
        assert(s.skip(0) =~= s);
        0
    }
}

/// `trim_end` drops a suffix, and what it leaves does not end with white space.
proof fn lemma_trim_end(s: Seq<char>) -> (k: int)
    ensures
        0 <= k <= s.len(),
        trim_end(s) == s.take(k),
        trim_end(s).len() > 0 ==> !is_ws(trim_end(s).last()),
    decreases s.len(),
{
    if s.len() > 0 && is_ws(s.last()) {
        let k1 = lemma_trim_end(s.drop_last());
        assert(s.drop_last().take(k1) =~= s.take(k1));
        k1
    } else {
        assert(s.take(s.len() as int) =~= s);
        s.len() as int
    }
}

/// Trimming keeps a contiguous part of the text, which neither starts nor ends
/// with white space.
pub proof fn lemma_trim(s: Seq<char>) -> (r: (int, int))
    ensures
        0 <= r.0 <= r.1 <= s.len(),
        spec_trim(s) == s.subrange(r.0, r.1),
        spec_trim(s).len() > 0 ==> !is_ws(spec_trim(s)[0]) && !is_ws(spec_trim(s).last()),
{
    let a = lemma_trim_start(s);
    let t = trim_start(s);
    let b = lemma_trim_end(t);
    assert(t.take(b) =~= s.subrange(a, a + b));
    if spec_trim(s).len() > 0 {
        assert(spec_trim(s)[0] == t[0]);
    }
    (a, a + b)
}

/// A text that neither starts nor ends with white space is its own trim.
pub proof fn lemma_trim_of_trimmed(s: Seq<char>)
    requires
        s.len() > 0 ==> !is_ws(s[0]) && !is_ws(s.last()),
    ensures
        spec_trim(s) == s,
{
}

/// Trimming twice trims no more than trimming once.
pub proof fn law_trim_idempotent(s: Seq<char>)
    ensures
        spec_trim(spec_trim(s)) == spec_trim(s),
{
    lemma_trim(s);
    lemma_trim_of_trimmed(spec_trim(s));
}


/// A word: non-empty, without white space.
pub open spec fn is_word(w: Seq<char>) -> bool {
    w.len() > 0 && forall|i: int| 0 <= i < w.len() ==> !is_ws(#[trigger] w[i])
}

/// Every element of `ws` is a word.
pub open spec fn all_words(ws: Seq<Seq<char>>) -> bool {
    forall|i: int| 0 <= i < ws.len() ==> is_word(#[trigger] ws[i])
}

proof fn lemma_words_state_clean(s: Seq<char>)
    ensures
        all_words(words_state(s).0),
        forall|i: int|
            0 <= i < words_state(s).1.len() ==> !is_ws(#[trigger] words_state(s).1[i]),
    decreases s.len(),
{
    if s.len() > 0 {
        lemma_words_state_clean(s.drop_last());
        let (ws, cur) = words_state(s.drop_last());
        let c = s.last();
        if is_ws(c) {
            if cur.len() > 0 {
                assert forall|i: int| 0 <= i < ws.push(cur).len() implies is_word(
                    #[trigger] ws.push(cur)[i],
                ) by {
                    if i < ws.len() {
                        assert(ws.push(cur)[i] == ws[i]);
                    }
                }
            }
        } else {
            assert forall|i: int| 0 <= i < cur.push(c).len() implies !is_ws(
                #[trigger] cur.push(c)[i],
            ) by {
                if i < cur.len() {
                    assert(cur.push(c)[i] == cur[i]);
                }
            }
        }
    }
}

/// The words of a text are words.
pub proof fn lemma_words_clean(s: Seq<char>)
    ensures
        all_words(spec_words(s)),
{
    lemma_words_state_clean(s);
    let (ws, cur) = words_state(s);
    if cur.len() > 0 {
        assert forall|i: int| 0 <= i < ws.push(cur).len() implies is_word(#[trigger] ws.push(cur)[i]) by {
            if i < ws.len() {
                assert(ws.push(cur)[i] == ws[i]);
            }
        }
    }
}

proof fn lemma_words_state_append_word(a: Seq<char>, w: Seq<char>)
    requires
        forall|i: int| 0 <= i < w.len() ==> !is_ws(#[trigger] w[i]),
    ensures
        words_state(a + w) == (words_state(a).0, words_state(a).1 + w),
    decreases w.len(),
{
    if w.len() == 0 {
        assert(a + w =~= a);
        assert(words_state(a).1 + w =~= words_state(a).1);
    } else {
        let w1 = w.drop_last();
        assert forall|i: int| 0 <= i < w1.len() implies !is_ws(#[trigger] w1[i]) by {
            assert(w1[i] == w[i]);
        }
        lemma_words_state_append_word(a, w1);
        assert((a + w).drop_last() =~= a + w1);
        assert((a + w).last() == w.last());
        assert(!is_ws(w[w.len() - 1]));
        assert(words_state(a).1 + w =~= (words_state(a).1 + w1).push(w.last()));
    }
}

proof fn lemma_words_state_space(a: Seq<char>)
    ensures
        words_state(a.push(' ')) == (spec_words(a), Seq::<char>::empty()),
{
    assert(a.push(' ').drop_last() =~= a);
    assert(is_ws(' '));
}

/// Splitting words joined by single spaces gives the words back.
pub proof fn lemma_words_of_join(ws: Seq<Seq<char>>)
    requires
        all_words(ws),
    ensures
        spec_words(join(ws, " "@)) == ws,
    decreases ws.len(),
{
    reveal_strlit(" ");
    if ws.len() == 0 {
        assert(words_state(Seq::<char>::empty()) == (Seq::<Seq<char>>::empty(), Seq::<char>::empty()));
        assert(spec_words(join(ws, " "@)) =~= ws);
    } else if ws.len() == 1 {
        let w = ws[0];
        assert(is_word(ws[0]));
        lemma_words_state_append_word(Seq::empty(), w);
        assert(Seq::<char>::empty() + w =~= w);
        assert(spec_words(w) =~= ws);
    } else {
        let l = ws.drop_last();
        assert forall|i: int| 0 <= i < l.len() implies is_word(#[trigger] l[i]) by {
            assert(l[i] == ws[i]);
        }
        lemma_words_of_join(l);
        let j = join(l, " "@);
        let w = ws.last();
        assert(is_word(ws[ws.len() - 1]));
        assert(j + " "@ =~= j.push(' '));
        lemma_words_state_space(j);
        lemma_words_state_append_word(j.push(' '), w);
        assert(Seq::<char>::empty() + w =~= w);
        assert(spec_words(join(ws, " "@)) =~= l.push(w));
        assert(l.push(w) =~= ws);
    }
}

/// The words of each text, in order, concatenated.
pub open spec fn flat_words(ss: Seq<Seq<char>>) -> Seq<Seq<char>>
    decreases ss.len(),
{
    if ss.len() == 0 {
        Seq::empty()
    } else {
        flat_words(ss.drop_last()) + spec_words(ss.last())
    }
}


proof fn lemma_words_state_concat(p: Seq<char>, q: Seq<char>)
    requires
        words_state(p).1.len() == 0,
    ensures
        words_state(p + q) == (words_state(p).0 + words_state(q).0, words_state(q).1),
    decreases q.len(),
{
    if q.len() == 0 {
        assert(p + q =~= p);
        assert(words_state(p).0 + words_state(q).0 =~= words_state(p).0);
        assert(words_state(p).1 =~= words_state(q).1);
    } else {
        let q1 = q.drop_last();
        lemma_words_state_concat(p, q1);
        assert((p + q).drop_last() =~= p + q1);
        assert((p + q).last() == q.last());
        let (wq, cq) = words_state(q1);
        let wp = words_state(p).0;
        if is_ws(q.last()) && cq.len() > 0 {
            assert((wp + wq).push(cq) =~= wp + wq.push(cq));
        }
    }
}

proof fn lemma_words_state_after_space(x: Seq<char>, c: char)
    requires
        is_ws(c),
    ensures
        words_state(x.push(c)) == (spec_words(x), Seq::<char>::empty()),
{
    assert(x.push(c).drop_last() =~= x);
}

/// Cutting a text just before white space (or at either end) cuts its words
/// into the words of the two parts.
pub proof fn lemma_words_split(a: Seq<char>, b: Seq<char>)
    requires
        a.len() == 0 || b.len() == 0 || is_ws(b[0]),
    ensures
        spec_words(a + b) == spec_words(a) + spec_words(b),
{
    let e = Seq::<char>::empty();
    assert(words_state(e) == (Seq::<Seq<char>>::empty(), e));
    if a.len() == 0 {
        assert(a + b =~= b);
        assert(spec_words(a) + spec_words(b) =~= spec_words(b));
    } else if b.len() == 0 {
        assert(a + b =~= a);
        assert(spec_words(a) + spec_words(b) =~= spec_words(a));
    } else {
        let q = b.skip(1);
        lemma_words_state_after_space(a, b[0]);
        lemma_words_state_concat(a.push(b[0]), q);
        assert(a + b =~= a.push(b[0]) + q);
        lemma_words_state_after_space(e, b[0]);
        lemma_words_state_concat(e.push(b[0]), q);
        assert(b =~= e.push(b[0]) + q);
        let (wq, cq) = words_state(q);
        assert(Seq::<Seq<char>>::empty() + wq =~= wq);
        if cq.len() > 0 {
            assert((spec_words(a) + wq).push(cq) =~= spec_words(a) + wq.push(cq));
        }
    }
}

/// White space around a text holds no word.
pub proof fn lemma_words_trim(x: Seq<char>)
    ensures
        spec_words(spec_trim(x)) == spec_words(x),
{
    lemma_words_trim_start(x);
    lemma_words_trim_end(trim_start(x));
}

/// White space before a text adds no word.
pub proof fn lemma_words_leading_space(c: char, b: Seq<char>)
    requires
        is_ws(c),
    ensures
        spec_words(seq![c] + b) == spec_words(b),
        spec_words(seq![c]) == Seq::<Seq<char>>::empty(),
{
    let e = Seq::<char>::empty();
    assert(words_state(e) == (Seq::<Seq<char>>::empty(), e));
    lemma_words_state_after_space(e, c);
    lemma_words_state_concat(e.push(c), b);
    assert(seq![c] =~= e.push(c));
    assert(Seq::<Seq<char>>::empty() + words_state(b).0 =~= words_state(b).0);
}

proof fn lemma_words_trim_start(x: Seq<char>)
    ensures
        spec_words(trim_start(x)) == spec_words(x),
    decreases x.len(),
{
    if x.len() > 0 && is_ws(x[0]) {
        lemma_words_trim_start(x.skip(1));
        let e = Seq::<char>::empty();
        assert(words_state(e) == (Seq::<Seq<char>>::empty(), e));
        lemma_words_state_after_space(e, x[0]);
        lemma_words_state_concat(e.push(x[0]), x.skip(1));
        assert(x =~= e.push(x[0]) + x.skip(1));
        assert(Seq::<Seq<char>>::empty() + words_state(x.skip(1)).0 =~= words_state(x.skip(1)).0);
    }
}

proof fn lemma_words_trim_end(x: Seq<char>)
    ensures
        spec_words(trim_end(x)) == spec_words(x),
    decreases x.len(),
{
    if x.len() > 0 && is_ws(x.last()) {
        lemma_words_trim_end(x.drop_last());
        lemma_words_state_after_space(x.drop_last(), x.last());
        assert(x.drop_last().push(x.last()) =~= x);
    }
}

} // verus!
