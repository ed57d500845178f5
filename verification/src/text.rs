//! Character-level text operations used throughout the library, each stated
//! over `Seq<char>` and proved.

use vstd::prelude::*;

verus! {

/// `char::is_whitespace`: the Unicode `White_Space` property.
pub open spec fn is_ws(c: char) -> bool {
    let u = c as u32;
    ||| 0x09 <= u <= 0x0D
    ||| u == 0x20
    ||| u == 0x85
    ||| u == 0xA0
    ||| u == 0x1680
    ||| 0x2000 <= u <= 0x200A
    ||| u == 0x2028
    ||| u == 0x2029
    ||| u == 0x202F
    ||| u == 0x205F
    ||| u == 0x3000
}

/// `str::trim_start`.
pub open spec fn trim_start(s: Seq<char>) -> Seq<char>
    decreases s.len(),
{
    if s.len() > 0 && is_ws(s[0]) {
        trim_start(s.drop_first())
    } else {
        s
    }
}

/// `str::trim_end`.
pub open spec fn trim_end(s: Seq<char>) -> Seq<char>
    decreases s.len(),
{
    if s.len() > 0 && is_ws(s.last()) {
        trim_end(s.drop_last())
    } else {
        s
    }
}

/// `str::trim`: leading and trailing whitespace removed.
pub open spec fn trim(s: Seq<char>) -> Seq<char> {
    trim_end(trim_start(s))
}

/// `needle` occurs in `hay` starting at index `i`.
pub open spec fn occurs_at<A>(hay: Seq<A>, needle: Seq<A>, i: int) -> bool {
    0 <= i && i + needle.len() <= hay.len() && hay.subrange(i, i + needle.len()) == needle
}

/// `str::contains` with a string pattern.
pub open spec fn contains(hay: Seq<char>, needle: Seq<char>) -> bool {
    exists|i: int| occurs_at(hay, needle, i)
}

/// The index of the leftmost occurrence of `needle` in `hay` at or after `k`.
pub open spec fn first_occurrence_from<A>(hay: Seq<A>, needle: Seq<A>, k: int) -> Option<int>
    decreases hay.len() + 1 - k,
{
    if k < 0 || k > hay.len() {
        None
    } else if occurs_at(hay, needle, k) {
        Some(k)
    } else {
        first_occurrence_from(hay, needle, k + 1)
    }
}

/// The index of the leftmost occurrence of `needle` in `hay`.
pub open spec fn first_occurrence<A>(hay: Seq<A>, needle: Seq<A>) -> Option<int> {
    first_occurrence_from(hay, needle, 0)
}

proof fn lemma_first_from<A>(hay: Seq<A>, needle: Seq<A>, k: int, i: int)
    requires
        0 <= k <= i,
        occurs_at(hay, needle, i),
        forall|j: int| k <= j < i ==> !occurs_at(hay, needle, j),
    ensures
        first_occurrence_from(hay, needle, k) == Some(i),
    decreases i - k,
{
    if k < i {
        lemma_first_from(hay, needle, k + 1, i);
    }
}

proof fn lemma_none_from<A>(hay: Seq<A>, needle: Seq<A>, k: int)
    requires
        0 <= k,
        forall|j: int| k <= j ==> !occurs_at(hay, needle, j),
    ensures
        first_occurrence_from(hay, needle, k) is None,
    decreases hay.len() + 1 - k,
{
    if k <= hay.len() {
        lemma_none_from(hay, needle, k + 1);
    }
}

proof fn lemma_from_is_first<A>(hay: Seq<A>, needle: Seq<A>, k: int)
    requires
        0 <= k,
        first_occurrence_from(hay, needle, k) is Some,
    ensures
        k <= first_occurrence_from(hay, needle, k)->0,
        occurs_at(hay, needle, first_occurrence_from(hay, needle, k)->0),
        forall|j: int|
            k <= j < first_occurrence_from(hay, needle, k)->0 ==> !occurs_at(hay, needle, j),
    decreases hay.len() + 1 - k,
{
    if k <= hay.len() && !occurs_at(hay, needle, k) {
        lemma_from_is_first(hay, needle, k + 1);
    }
}

/// A leftmost occurrence found by a scan is the one `first_occurrence` names.
pub proof fn lemma_first_occurrence<A>(hay: Seq<A>, needle: Seq<A>, i: int)
    requires
        occurs_at(hay, needle, i),
        forall|j: int| 0 <= j < i ==> !occurs_at(hay, needle, j),
    ensures
        first_occurrence(hay, needle) == Some(i),
{
    lemma_first_from(hay, needle, 0, i);
}

/// A sequence in which `needle` never occurs has no first occurrence.
pub proof fn lemma_no_occurrence<A>(hay: Seq<A>, needle: Seq<A>)
    requires
        forall|j: int| !occurs_at(hay, needle, j),
    ensures
        first_occurrence(hay, needle) is None,
{
    lemma_none_from(hay, needle, 0);
}

/// The first occurrence is an occurrence, and none comes before it.
pub proof fn lemma_first_occurrence_is_first<A>(hay: Seq<A>, needle: Seq<A>)
    requires
        first_occurrence(hay, needle) is Some,
    ensures
        occurs_at(hay, needle, first_occurrence(hay, needle)->0),
        forall|j: int|
            0 <= j < first_occurrence(hay, needle)->0 ==> !occurs_at(hay, needle, j),
{
    lemma_from_is_first(hay, needle, 0);
}

/// `str::replace`: every non-overlapping occurrence of the non-empty
/// `pattern`, found from left to right, replaced by `with`.
pub open spec fn replace(s: Seq<char>, pattern: Seq<char>, with: Seq<char>) -> Seq<char>
    decreases s.len(),
{
    if pattern.len() == 0 || s.len() < pattern.len() {
        s
    } else if s.take(pattern.len() as int) == pattern {
        with + replace(s.skip(pattern.len() as int), pattern, with)
    } else {
        seq![s[0]] + replace(s.drop_first(), pattern, with)
    }
}

/// The first `n` characters, or all of them when there are fewer
/// (`chars().take(n)`).
pub open spec fn take_chars(s: Seq<char>, n: nat) -> Seq<char> {
    if n < s.len() {
        s.take(n as int)
    } else {
        s
    }
}

/// The decimal digits of `n`, as `Display` writes an unsigned integer.
pub open spec fn decimal(n: nat) -> Seq<char>
    decreases n,
{
    if n < 10 {
        seq![digit_char(n)]
    } else {
        decimal(n / 10) + seq![digit_char(n % 10)]
    }
}

/// The ASCII digit for `d` (below ten).
pub open spec fn digit_char(d: nat) -> char {
    ('0' as u32 + d) as char
}

/// The decimal representation of `n`, as `u64::to_string` writes it.
pub fn decimal_string(n: u64) -> (s: String)
    ensures
        s@ == decimal(n as nat),
    decreases n,
{
    let d = (n % 10) as u8;
    let c = (48u8 + d) as char;
    assert(c == digit_char((n % 10) as nat)) by {
        assert((48u8 + d) as char as u32 == 48 + d);
    }
    if n < 10 {
        let mut s = String::new();
        push_char(&mut s, c);
        assert(s@ =~= seq![c]);
        s
    } else {
        let mut s = decimal_string(n / 10);
        push_char(&mut s, c);
        s
    }
}

/// The first word of `s` (which starts with a non-whitespace character): the
/// characters up to the next whitespace.
pub open spec fn leading_word(s: Seq<char>) -> Seq<char>
    decreases s.len(),
{
    if s.len() == 0 || is_ws(s[0]) {
        seq![]
    } else {
        seq![s[0]] + leading_word(s.drop_first())
    }
}

/// `str::split_whitespace`: the maximal runs of non-whitespace characters.
pub open spec fn words(s: Seq<char>) -> Seq<Seq<char>>
    decreases s.len(),
{
    let t = trim_start(s);
    let w = leading_word(t);
    if t.len() == 0 || w.len() == 0 || t.len() > s.len() || w.len() > t.len() {
        seq![]
    } else {
        seq![w] + words(t.skip(w.len() as int))
    }
}

/// The parts joined with `sep` between them.
pub open spec fn join(parts: Seq<Seq<char>>, sep: Seq<char>) -> Seq<char>
    decreases parts.len(),
{
    if parts.len() == 0 {
        seq![]
    } else if parts.len() == 1 {
        parts[0]
    } else {
        join(parts.drop_last(), sep) + sep + parts.last()
    }
}

/// The text with its whitespace runs collapsed to single spaces and cut to
/// at most `max_chars` characters
/// (`split_whitespace().join(" ").chars().take(max_chars)`).
pub open spec fn compact(s: Seq<char>, max_chars: nat) -> Seq<char> {
    take_chars(join(words(s), seq![' ']), max_chars)
}

/// ASCII lower-casing of one character.
pub open spec fn ascii_lower(c: char) -> char {
    if 'A' <= c <= 'Z' {
        ((c as u32) + 32) as char
    } else {
        c
    }
}

/// `str::eq_ignore_ascii_case`.
pub open spec fn eq_ignore_ascii_case(a: Seq<char>, b: Seq<char>) -> bool {
    a.len() == b.len() && forall|i: int| 0 <= i < a.len() ==> ascii_lower(a[i]) == ascii_lower(b[i])
}

/// ASCII lower-casing of one character.
pub fn to_ascii_lower(c: char) -> (r: char)
    ensures
        r == ascii_lower(c),
{
    if 'A' <= c && c <= 'Z' {
        let u = ((c as u32) + 32) as u8;
        u as char
    } else {
        c
    }
}

/// `str::eq_ignore_ascii_case`.
pub fn eq_ignore_ascii_case_chars(a: &[char], b: &[char]) -> (r: bool)
    ensures
        r == eq_ignore_ascii_case(a@, b@),
{
    if a.len() != b.len() {
        return false;
    }
    let mut i: usize = 0;
    while i < a.len()
        invariant
            a@.len() == b@.len(),
            i <= a@.len(),
            forall|k: int| 0 <= k < i ==> ascii_lower(a@[k]) == ascii_lower(b@[k]),
        decreases a@.len() - i,
    {
        if to_ascii_lower(a[i]) != to_ascii_lower(b[i]) {
            return false;
        }
        i = i + 1;
    }
    true
}

/// `char::is_whitespace`.
pub fn is_whitespace(c: char) -> (r: bool)
    ensures
        r == is_ws(c),
{
    let u = c as u32;
    (0x09 <= u && u <= 0x0D) || u == 0x20 || u == 0x85 || u == 0xA0 || u == 0x1680 || (0x2000
        <= u && u <= 0x200A) || u == 0x2028 || u == 0x2029 || u == 0x202F || u == 0x205F || u
        == 0x3000
}

/// The characters of `s`, in order.
pub fn chars_of(s: &str) -> (out: Vec<char>)
    ensures
        out@ == s@,
{
    let mut out: Vec<char> = Vec::new();
    for c in it: s.chars()
        invariant
            it.seq() == s@,
            out@ == it.seq().take(it.index() as int),
    {
        out.push(c);
    }
    out
}

/// `String::push`.
#[verifier::external_body]
fn push_char(s: &mut String, c: char)
    ensures
        final(s)@ == old(s)@.push(c),
{
    s.push(c);
}

/// `str == str`.
#[verifier::external_body]
pub fn str_eq(a: &str, b: &str) -> (r: bool)
    ensures
        r == (a@ == b@),
{
    a == b
}

/// `String::push_str`.
#[verifier::external_body]
pub fn append_str(s: &mut String, tail: &str)
    ensures
        final(s)@ == old(s)@ + tail@,
{
    s.push_str(tail);
}

/// `std::str::from_utf8`, keeping an owned copy of the decoded text.
#[verifier::external_body]
pub fn decode_utf8_bytes(bytes: &[u8]) -> (r: Option<String>)
    ensures
        match r {
            Some(s) => vstd::utf8::valid_utf8(bytes@) && s@ == vstd::utf8::decode_utf8(bytes@),
            None => !vstd::utf8::valid_utf8(bytes@),
        },
{
    match std::str::from_utf8(bytes) {
        Ok(s) => Some(s.to_owned()),
        Err(_) => None,
    }
}

/// Are the two character sequences equal?
pub fn chars_eq(a: &[char], b: &[char]) -> (r: bool)
    ensures
        r == (a@ == b@),
{
    if a.len() != b.len() {
        return false;
    }
    let mut i: usize = 0;
    while i < a.len()
        invariant
            a@.len() == b@.len(),
            i <= a@.len(),
            forall|k: int| 0 <= k < i ==> a@[k] == b@[k],
        decreases a@.len() - i,
    {
        if a[i] != b[i] {
            return false;
        }
        i = i + 1;
    }
    assert(a@ =~= b@);
    true
}

/// The view of a list of character vectors.
pub open spec fn char_seqs(v: Seq<Vec<char>>) -> Seq<Seq<char>> {
    v.map_values(|c: Vec<char>| c@)
}

/// The characters of `s` from index `from` up to `to`.
pub fn subrange_chars(s: &[char], from: usize, to: usize) -> (out: Vec<char>)
    requires
        from <= to <= s@.len(),
    ensures
        out@ == s@.subrange(from as int, to as int),
{
    let mut out: Vec<char> = Vec::new();
    let mut k: usize = from;
    while k < to
        invariant
            from <= k <= to <= s@.len(),
            out@ == s@.subrange(from as int, k as int),
        decreases to - k,
    {
        out.push(s[k]);
        k = k + 1;
        assert(s@.subrange(from as int, k as int) == s@.subrange(from as int, k - 1 as int).push(
            s@[k - 1],
        ));
    }
    out
}

/// `str::trim_start` on a character sequence.
pub fn trim_start_chars(s: &[char]) -> (out: Vec<char>)
    ensures
        out@ == trim_start(s@),
{
    let n = s.len();
    let mut i: usize = 0;
    while i < n && is_whitespace(s[i])
        invariant
            n == s@.len(),
            i <= n,
            forall|k: int| 0 <= k < i ==> is_ws(#[trigger] s@[k]),
        decreases n - i,
    {
        i = i + 1;
    }
    proof {
        lemma_trim_start_skip(s@, i as int);
    }
    let ghost t = s@.skip(i as int);
    assert(trim_start(s@) == t) by {
        if i < n {
            assert(t[0] == s@[i as int]);
        }
    }
    let out = subrange_chars(s, i, n);
    assert(out@ =~= t);
    out
}

proof fn lemma_trim_start_len(s: Seq<char>)
    ensures
        trim_start(s).len() <= s.len(),
        trim_start(s) == s.skip(s.len() - trim_start(s).len()),
        trim_start(s).len() > 0 ==> !is_ws(trim_start(s)[0]),
    decreases s.len(),
{
    if s.len() > 0 && is_ws(s[0]) {
        lemma_trim_start_len(s.drop_first());
        assert(s.drop_first().skip(s.drop_first().len() - trim_start(s).len()) == s.skip(
            s.len() - trim_start(s).len(),
        ));
    } else {
        assert(s.skip(0) == s);
    }
}

proof fn lemma_leading_word(s: Seq<char>, k: int)
    requires
        0 <= k <= s.len(),
        forall|j: int| 0 <= j < k ==> !is_ws(#[trigger] s[j]),
        k == s.len() || is_ws(s[k]),
    ensures
        leading_word(s) == s.take(k),
    decreases k,
{
    if k > 0 {
        lemma_leading_word(s.drop_first(), k - 1);
        assert(seq![s[0]] + s.drop_first().take(k - 1) == s.take(k));
    } else {
        assert(s.take(0) =~= Seq::<char>::empty());
    }
}

/// `str::split_whitespace` on a character sequence.
pub fn split_whitespace_chars(s: &[char]) -> (out: Vec<Vec<char>>)
    ensures
        char_seqs(out@) == words(s@),
{
    let n = s.len();
    let mut out: Vec<Vec<char>> = Vec::new();
    let mut i: usize = 0;
    assert(s@.skip(0) == s@);
    assert(char_seqs(out@) =~= Seq::<Seq<char>>::empty());
    while i < n
        invariant
            n == s@.len(),
            i <= n,
            words(s@) == char_seqs(out@) + words(s@.skip(i as int)),
        decreases n - i,
    {
        let mut j: usize = i;
        while j < n && is_whitespace(s[j])
            invariant
                n == s@.len(),
                i <= j <= n,
                forall|k: int| i <= k < j ==> is_ws(#[trigger] s@[k]),
            decreases n - j,
        {
            j = j + 1;
        }
        proof {
            let t = s@.skip(i as int);
            assert forall|k: int| 0 <= k < j - i implies is_ws(#[trigger] t[k]) by {
                assert(t[k] == s@[i + k]);
            }
            lemma_trim_start_skip(t, (j - i) as int);
            assert(t.skip((j - i) as int) == s@.skip(j as int));
            let u = s@.skip(j as int);
            if j < n {
                assert(u[0] == s@[j as int]);
            }
            assert(trim_start(u) == u);
            assert(trim_start(t) == u);
        }
        if j == n {
            proof {
                assert(words(s@.skip(i as int)) =~= Seq::<Seq<char>>::empty());
            }
            i = j;
            assert(words(s@.skip(i as int)) =~= Seq::<Seq<char>>::empty());
        } else {
            let mut k: usize = j;
            while k < n && !is_whitespace(s[k])
                invariant
                    n == s@.len(),
                    j <= k <= n,
                    forall|m: int| j <= m < k ==> !is_ws(#[trigger] s@[m]),
                decreases n - k,
            {
                k = k + 1;
            }
            let word = subrange_chars(s, j, k);
            proof {
                let u = s@.skip(j as int);
                assert forall|m: int| 0 <= m < k - j implies !is_ws(#[trigger] u[m]) by {
                    assert(u[m] == s@[j + m]);
                }
                if k < n {
                    assert(u[(k - j) as int] == s@[k as int]);
                }
                lemma_leading_word(u, (k - j) as int);
                assert(u.take((k - j) as int) == word@);
                assert(u.skip((k - j) as int) == s@.skip(k as int));
                let t = s@.skip(i as int);
                assert(trim_start(t) == u);
                assert(words(t) == seq![word@] + words(s@.skip(k as int)));
            }
            let ghost prev = out@;
            out.push(word);
            proof {
                assert(char_seqs(out@) == char_seqs(prev).push(out@.last()@));
            }
            i = k;
        }
    }
    assert(words(s@.skip(i as int)) =~= Seq::<Seq<char>>::empty());
    out
}

/// `split_whitespace().join(" ")` on a character sequence, cut to
/// `max_chars` characters.
pub fn compact_chars(s: &[char], max_chars: usize) -> (out: Vec<char>)
    ensures
        out@ == compact(s@, max_chars as nat),
{
    let n = s.len();
    let mut out: Vec<char> = Vec::new();
    let mut i: usize = 0;
    let ghost mut done: Seq<Seq<char>> = seq![];
    assert(s@.skip(0) == s@);
    while i < n
        invariant
            n == s@.len(),
            i <= n,
            out@ == join(done, seq![' ']),
            (done.len() == 0) == (out@.len() == 0),
            words(s@) == done + words(s@.skip(i as int)),
        decreases n - i,
    {
        let mut j: usize = i;
        while j < n && is_whitespace(s[j])
            invariant
                n == s@.len(),
                i <= j <= n,
                forall|k: int| i <= k < j ==> is_ws(#[trigger] s@[k]),
            decreases n - j,
        {
            j = j + 1;
        }
        proof {
            let t = s@.skip(i as int);
            assert forall|k: int| 0 <= k < j - i implies is_ws(#[trigger] t[k]) by {
                assert(t[k] == s@[i + k]);
            }
            lemma_trim_start_skip(t, (j - i) as int);
            assert(t.skip((j - i) as int) == s@.skip(j as int));
            let u = s@.skip(j as int);
            if j < n {
                assert(u[0] == s@[j as int]);
            }
            assert(trim_start(u) == u);
            assert(trim_start(t) == u);
        }
        if j == n {
            proof {
                assert(words(s@.skip(i as int)) =~= Seq::<Seq<char>>::empty());
                assert(done + words(s@.skip(i as int)) =~= done);
            }
            i = j;
            assert(words(s@.skip(i as int)) =~= Seq::<Seq<char>>::empty());
        } else {
            let mut k: usize = j;
            while k < n && !is_whitespace(s[k])
                invariant
                    n == s@.len(),
                    j <= k <= n,
                    forall|m: int| j <= m < k ==> !is_ws(#[trigger] s@[m]),
                decreases n - k,
            {
                k = k + 1;
            }
            let word = subrange_chars(s, j, k);
            proof {
                let u = s@.skip(j as int);
                assert forall|m: int| 0 <= m < k - j implies !is_ws(#[trigger] u[m]) by {
                    assert(u[m] == s@[j + m]);
                }
                if k < n {
                    assert(u[(k - j) as int] == s@[k as int]);
                }
                lemma_leading_word(u, (k - j) as int);
                assert(u.take((k - j) as int) == word@);
                assert(u.skip((k - j) as int) == s@.skip(k as int));
                let t = s@.skip(i as int);
                assert(trim_start(t) == u);
                assert(words(t) == seq![word@] + words(s@.skip(k as int)));
            }
            let ghost prev = done;
            if out.len() > 0 {
                out.push(' ');
            }
            push_all(&mut out, word.as_slice());
            proof {
                done = prev.push(word@);
                assert(done.drop_last() == prev);
                if prev.len() == 0 {
                    assert(out@ == word@);
                    assert(done == seq![word@]);
                } else {
                    assert(done.last() == word@);
                }
                assert(word@.len() > 0);
                assert(words(s@) == done + words(s@.skip(k as int)));
            }
            i = k;
        }
    }
    let joined = out;
    let mut result: Vec<char> = Vec::new();
    let mut m: usize = 0;
    while m < joined.len() && m < max_chars
        invariant
            m <= joined@.len(),
            m <= max_chars,
            result@ == joined@.take(m as int),
        decreases joined@.len() - m,
    {
        result.push(joined[m]);
        m = m + 1;
        assert(joined@.take(m as int) == joined@.take(m - 1 as int).push(joined@[m - 1]));
    }
    if m == joined.len() {
        assert(joined@.take(m as int) == joined@);
    }
    result
}

/// The string made of the characters `v`.
pub fn string_of(v: &[char]) -> (out: String)
    ensures
        out@ == v@,
{
    let mut out = String::new();
    let mut i: usize = 0;
    while i < v.len()
        invariant
            i <= v@.len(),
            out@ == v@.take(i as int),
        decreases v@.len() - i,
    {
        push_char(&mut out, v[i]);
        i = i + 1;
        assert(v@.take(i as int) == v@.take(i - 1 as int).push(v@[i - 1]));
    }
    assert(v@.take(v@.len() as int) == v@);
    out
}

/// `old` followed by the characters of `tail`.
pub fn push_str(out: &mut Vec<char>, tail: &str)
    ensures
        final(out)@ == old(out)@ + tail@,
{
    let t = chars_of(tail);
    push_all(out, &t);
}

/// `old` followed by `tail`.
pub fn push_all(out: &mut Vec<char>, tail: &[char])
    ensures
        final(out)@ == old(out)@ + tail@,
{
    let mut i: usize = 0;
    while i < tail.len()
        invariant
            i <= tail@.len(),
            out@ == old(out)@ + tail@.take(i as int),
        decreases tail@.len() - i,
    {
        out.push(tail[i]);
        i = i + 1;
        assert(tail@.take(i as int) == tail@.take(i - 1 as int).push(tail@[i - 1]));
    }
    assert(tail@.take(tail@.len() as int) == tail@);
}

proof fn lemma_trim_start_skip(s: Seq<char>, i: int)
    requires
        0 <= i <= s.len(),
        forall|k: int| 0 <= k < i ==> is_ws(#[trigger] s[k]),
    ensures
        trim_start(s.skip(i)) == trim_start(s),
    decreases i,
{
    if i > 0 {
        lemma_trim_start_skip(s, i - 1);
        assert(s.skip(i - 1).drop_first() == s.skip(i));
        assert(s.skip(i - 1)[0] == s[i - 1]);
    } else {
        assert(s.skip(0) == s);
    }
}

proof fn lemma_trim_end_take(s: Seq<char>, j: int)
    requires
        0 <= j <= s.len(),
        forall|k: int| j <= k < s.len() ==> is_ws(#[trigger] s[k]),
    ensures
        trim_end(s.take(j)) == trim_end(s),
    decreases s.len() - j,
{
    if j < s.len() {
        lemma_trim_end_take(s, j + 1);
        assert(s.take(j + 1).drop_last() == s.take(j));
        assert(s.take(j + 1).last() == s[j]);
    } else {
        assert(s.take(j) == s);
    }
}

/// `str::trim` on a character sequence.
pub fn trim_chars(s: &[char]) -> (out: Vec<char>)
    ensures
        out@ == trim(s@),
{
    let n = s.len();
    let mut i: usize = 0;
    while i < n && is_whitespace(s[i])
        invariant
            n == s@.len(),
            i <= n,
            forall|k: int| 0 <= k < i ==> is_ws(#[trigger] s@[k]),
        decreases n - i,
    {
        i = i + 1;
    }
    proof {
        lemma_trim_start_skip(s@, i as int);
    }
    let ghost t = s@.skip(i as int);
    assert(trim_start(s@) == t) by {
        if i < n {
            assert(t[0] == s@[i as int]);
        }
    }
    let mut j: usize = n;
    while j > i && is_whitespace(s[j - 1])
        invariant
            n == s@.len(),
            i <= j <= n,
            t == s@.skip(i as int),
            forall|k: int| j <= k < n ==> is_ws(#[trigger] s@[k]),
        decreases j,
    {
        j = j - 1;
    }
    proof {
        let m = (j - i) as int;
        assert forall|k: int| m <= k < t.len() implies is_ws(#[trigger] t[k]) by {
            assert(t[k] == s@[k + i]);
        }
        lemma_trim_end_take(t, m);
        if m > 0 {
            assert(t.take(m).last() == s@[j - 1]);
        }
    }
    let mut out: Vec<char> = Vec::new();
    let mut k: usize = i;
    while k < j
        invariant
            n == s@.len(),
            i <= k <= j <= n,
            out@ == s@.subrange(i as int, k as int),
        decreases j - k,
    {
        out.push(s[k]);
        k = k + 1;
        assert(s@.subrange(i as int, k as int) == s@.subrange(i as int, k - 1 as int).push(
            s@[k - 1],
        ));
    }
    assert(out@ == t.take((j - i) as int));
    out
}

/// `text.trim().is_empty()`: the text holds nothing but whitespace.
pub fn is_blank(s: &str) -> (r: bool)
    ensures
        r == (trim(s@).len() == 0),
{
    let c = chars_of(s);
    let t = trim_chars(&c);
    t.len() == 0
}

/// Does `needle` occur in `hay` at index `i`?
pub fn occurs_at_exec(hay: &[char], needle: &[char], i: usize) -> (r: bool)
    ensures
        r == occurs_at(hay@, needle@, i as int),
{
    if i > hay.len() || needle.len() > hay.len() - i {
        return false;
    }
    let hl = hay.len();
    let mut k: usize = 0;
    while k < needle.len()
        invariant
            hl == hay@.len(),
            i + needle@.len() <= hay@.len(),
            k <= needle@.len(),
            forall|m: int| 0 <= m < k ==> hay@[i + m] == needle@[m],
        decreases needle@.len() - k,
    {
        if hay[i + k] != needle[k] {
            assert(hay@.subrange(i as int, i + needle@.len())[k as int] != needle@[k as int]);
            return false;
        }
        k = k + 1;
    }
    assert(hay@.subrange(i as int, i + needle@.len()) =~= needle@);
    true
}

/// `str::contains`.
pub fn contains_exec(hay: &[char], needle: &[char]) -> (r: bool)
    ensures
        r == contains(hay@, needle@),
{
    if needle.len() > hay.len() {
        assert forall|i: int| !occurs_at(hay@, needle@, i) by {}
        return false;
    }
    let last = hay.len() - needle.len();
    let mut i: usize = 0;
    while i < last
        invariant
            last == hay@.len() - needle@.len(),
            i <= last,
            forall|m: int| 0 <= m < i ==> !occurs_at(hay@, needle@, m),
        decreases last - i,
    {
        if occurs_at_exec(hay, needle, i) {
            return true;
        }
        i = i + 1;
    }
    if occurs_at_exec(hay, needle, last) {
        return true;
    }
    assert forall|m: int| !occurs_at(hay@, needle@, m) by {
        if m > last {
            assert(!(m + needle@.len() <= hay@.len()));
        }
    }
    false
}

proof fn lemma_replace_step(s: Seq<char>, p: Seq<char>, w: Seq<char>, i: int)
    requires
        p.len() > 0,
        0 <= i < s.len(),
    ensures
        replace(s.skip(i), p, w) == if occurs_at(s, p, i) {
            w + replace(s.skip(i + p.len()), p, w)
        } else {
            seq![s[i]] + replace(s.skip(i + 1), p, w)
        },
{
    let t = s.skip(i);
    if occurs_at(s, p, i) {
        assert(t.take(p.len() as int) == s.subrange(i, i + p.len()));
        assert(t.skip(p.len() as int) == s.skip(i + p.len()));
    } else {
        if t.len() >= p.len() {
            assert(t.take(p.len() as int) == s.subrange(i, i + p.len()));
        }
        assert(t.drop_first() == s.skip(i + 1));
        if t.len() < p.len() {
            assert(replace(t, p, w) == t);
            assert(i + 1 <= s.len());
            let u = s.skip(i + 1);
            assert(u.len() < p.len());
            assert(replace(u, p, w) == u);
            assert(t == seq![s[i]] + u);
        }
    }
}

/// `c` occurs nowhere in `s`.
pub open spec fn lacks(s: Seq<char>, c: char) -> bool {
    forall|i: int| 0 <= i < s.len() ==> s[i] != c
}

/// Replacing every `c` by a text without `c` leaves no `c`.
pub proof fn lemma_replace_removes(s: Seq<char>, c: char, with: Seq<char>)
    requires
        lacks(with, c),
    ensures
        lacks(replace(s, seq![c], with), c),
    decreases s.len(),
{
    let p = seq![c];
    if s.len() >= 1 {
        if s.take(1) == p {
            lemma_replace_removes(s.skip(1), c, with);
            let rest = replace(s.skip(1), p, with);
            assert forall|i: int| 0 <= i < (with + rest).len() implies (with + rest)[i] != c by {
                if i >= with.len() {
                    assert((with + rest)[i] == rest[i - with.len()]);
                }
            }
        } else {
            lemma_replace_removes(s.drop_first(), c, with);
            let rest = replace(s.drop_first(), p, with);
            assert(s.take(1) == seq![s[0]]);
            assert forall|i: int| 0 <= i < (seq![s[0]] + rest).len() implies (seq![s[0]] + rest)[i] != c by {
                if i >= 1 {
                    assert((seq![s[0]] + rest)[i] == rest[i - 1]);
                }
            }
        }
    }
}

/// Replacing in a text without `c` by a text without `c` gives a text
/// without `c`.
pub proof fn lemma_replace_keeps_lacking(s: Seq<char>, pattern: Seq<char>, with: Seq<char>, c: char)
    requires
        lacks(s, c),
        lacks(with, c),
    ensures
        lacks(replace(s, pattern, with), c),
    decreases s.len(),
{
    if pattern.len() > 0 && s.len() >= pattern.len() {
        if s.take(pattern.len() as int) == pattern {
            lemma_replace_keeps_lacking(s.skip(pattern.len() as int), pattern, with, c);
            let rest = replace(s.skip(pattern.len() as int), pattern, with);
            assert forall|i: int| 0 <= i < (with + rest).len() implies (with + rest)[i] != c by {
                if i >= with.len() {
                    assert((with + rest)[i] == rest[i - with.len()]);
                }
            }
        } else {
            lemma_replace_keeps_lacking(s.drop_first(), pattern, with, c);
            let rest = replace(s.drop_first(), pattern, with);
            assert forall|i: int| 0 <= i < (seq![s[0]] + rest).len() implies (seq![s[0]] + rest)[i] != c by {
                if i >= 1 {
                    assert((seq![s[0]] + rest)[i] == rest[i - 1]);
                }
            }
        }
    }
}

/// Where the pattern occurs, the replacement occurs in the result.
pub proof fn lemma_replace_contains(s: Seq<char>, pattern: Seq<char>, with: Seq<char>)
    requires
        pattern.len() > 0,
        contains(s, pattern),
    ensures
        contains(replace(s, pattern, with), with),
    decreases s.len(),
{
    let i = choose|i: int| occurs_at(s, pattern, i);
    assert(s.len() >= pattern.len());
    if s.take(pattern.len() as int) == pattern {
        let r = with + replace(s.skip(pattern.len() as int), pattern, with);
        assert(r.subrange(0, with.len() as int) == with);
        assert(occurs_at(r, with, 0));
    } else {
        if i == 0 {
            assert(s.subrange(0, pattern.len() as int) == s.take(pattern.len() as int));
        }
        assert(i >= 1);
        let t = s.drop_first();
        assert(t.subrange(i - 1, i - 1 + pattern.len()) == s.subrange(i, i + pattern.len()));
        assert(occurs_at(t, pattern, i - 1));
        lemma_replace_contains(t, pattern, with);
        let rest = replace(t, pattern, with);
        let j = choose|j: int| occurs_at(rest, with, j);
        let r = seq![s[0]] + rest;
        assert(r.subrange(j + 1, j + 1 + with.len()) == rest.subrange(j, j + with.len()));
        assert(occurs_at(r, with, j + 1));
    }
}

/// `str::replace` with a non-empty pattern.
pub fn replace_exec(s: &[char], pattern: &[char], with: &[char]) -> (out: Vec<char>)
    requires
        pattern@.len() > 0,
    ensures
        out@ == replace(s@, pattern@, with@),
{
    let mut out: Vec<char> = Vec::new();
    let mut i: usize = 0;
    assert(s@.skip(0) == s@);
    while i < s.len()
        invariant
            pattern@.len() > 0,
            i <= s@.len(),
            out@ + replace(s@.skip(i as int), pattern@, with@) == replace(s@, pattern@, with@),
        decreases s@.len() - i,
    {
        proof {
            lemma_replace_step(s@, pattern@, with@, i as int);
        }
        if occurs_at_exec(s, pattern, i) {
            push_all(&mut out, with);
            i = i + pattern.len();
        } else {
            out.push(s[i]);
            i = i + 1;
        }
    }
    assert(s@.skip(i as int).len() == 0);
    out
}


/// The view of a text result: the characters of the value or of the error.
pub open spec fn text_result(r: Result<String, String>) -> Result<Seq<char>, Seq<char>> {
    match r {
        Ok(s) => Ok(s@),
        Err(e) => Err(e@),
    }
}

/// The characters of an optional borrowed string.
pub open spec fn opt_chars(o: Option<&str>) -> Option<Seq<char>> {
    match o {
        Some(s) => Some(s@),
        None => None,
    }
}

/// `a` followed by `b`.
pub fn concat2(a: &str, b: &str) -> (r: String)
    ensures
        r@ == a@ + b@,
{
    let mut r = a.to_owned();
    append_str(&mut r, b);
    r
}

/// `a`, `b` and `c` one after the other.
pub fn concat3(a: &str, b: &str, c: &str) -> (r: String)
    ensures
        r@ == a@ + b@ + c@,
{
    let mut r = a.to_owned();
    append_str(&mut r, b);
    append_str(&mut r, c);
    r
}

/// `a`, `b`, `c` and `d` one after the other.
pub fn concat4(a: &str, b: &str, c: &str, d: &str) -> (r: String)
    ensures
        r@ == a@ + b@ + c@ + d@,
{
    let mut r = a.to_owned();
    append_str(&mut r, b);
    append_str(&mut r, c);
    append_str(&mut r, d);
    r
}

/// `str::trim`, owned.
pub fn trim_str(s: &str) -> (r: String)
    ensures
        r@ == trim(s@),
{
    let c = chars_of(s);
    let t = trim_chars(&c);
    string_of(&t)
}

/// `str::contains` with a string pattern.
pub fn contains_str(hay: &str, needle: &str) -> (r: bool)
    ensures
        r == contains(hay@, needle@),
{
    let h = chars_of(hay);
    let n = chars_of(needle);
    contains_exec(&h, &n)
}

/// `str::replace` with a non-empty pattern.
pub fn replace_str(s: &str, pattern: &str, with: &str) -> (r: String)
    requires
        pattern@.len() > 0,
    ensures
        r@ == replace(s@, pattern@, with@),
{
    let sc = chars_of(s);
    let pc = chars_of(pattern);
    let wc = chars_of(with);
    let out = replace_exec(&sc, &pc, &wc);
    string_of(&out)
}

/// The index of the first `c` in `s`.
pub fn find_char(s: &[char], c: char) -> (r: Option<usize>)
    ensures
        match r {
            Some(i) => first_occurrence(s@, seq![c]) == Some(i as int),
            None => first_occurrence(s@, seq![c]) is None,
        },
{
    let mut i: usize = 0;
    while i < s.len()
        invariant
            i <= s@.len(),
            forall|j: int| 0 <= j < i ==> !occurs_at(s@, seq![c], j),
        decreases s@.len() - i,
    {
        if s[i] == c {
            assert(s@.subrange(i as int, i + 1) =~= seq![c]);
            proof {
                lemma_first_occurrence(s@, seq![c], i as int);
            }
            return Some(i);
        }
        assert(s@.subrange(i as int, i + 1)[0] == s@[i as int]);
        i = i + 1;
    }
    proof {
        lemma_no_occurrence(s@, seq![c]);
    }
    None
}

} // verus!
