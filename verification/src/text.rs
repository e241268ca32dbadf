//! Character-level text handling shared by the assembler and the tokenizer:
//! white space, lines, trimming, splitting into tokens and UTF-8 byte offsets.
//! Ranges are pairs `(start, end)` of character indices, `end` excluded.
use vstd::prelude::*;

verus! {

/// The characters that carry Unicode's `White_Space` property, which is what
/// `char::is_whitespace`, `str::trim` and `str::split_whitespace` go by.
pub open spec fn is_white_space(c: char) -> bool {
    let u = c as u32;
    ||| 0x09 <= u <= 0x0D
    ||| u == 0x20
    ||| u == 0x85
    ||| u == 0xA0
    ||| u == 0x1680
    ||| 0x2000 <= u <= 0x200A
    ||| u == 0x2028
    ||| u == 0x2029
    ||| u == 0x202F
    ||| u == 0x205F
    ||| u == 0x3000
}

pub fn white_space(c: char) -> (b: bool)
    ensures
        b == is_white_space(c),
{
    let u = c as u32;
    (0x09 <= u && u <= 0x0D) || u == 0x20 || u == 0x85 || u == 0xA0 || u == 0x1680 || (0x2000
        <= u && u <= 0x200A) || u == 0x2028 || u == 0x2029 || u == 0x202F || u == 0x205F || u
        == 0x3000
}

/// A separator between tokens: white space, and also `,` where commas separate.
pub open spec fn is_sep(c: char, commas: bool) -> bool {
    is_white_space(c) || (commas && c == ',')
}

pub fn sep(c: char, commas: bool) -> (b: bool)
    ensures
        b == is_sep(c, commas),
{
    white_space(c) || (commas && c == ',')
}

/// Number of bytes of `c` in UTF-8.
pub open spec fn utf8_len(c: char) -> int {
    let u = c as u32;
    if u < 0x80 {
        1
    } else if u < 0x800 {
        2
    } else if u < 0x10000 {
        3
    } else {
        4
    }
}

/// Byte offset, in UTF-8, of the character at index `i` of `s`.
pub open spec fn byte_pos(s: Seq<char>, i: int) -> int
    decreases i,
{
    if i <= 0 || s.len() == 0 {
        0
    } else if i > s.len() {
        byte_pos(s, s.len() as int)
    } else {
        byte_pos(s, i - 1) + utf8_len(s[i - 1])
    }
}

/// Number of bytes of the whole of `s` in UTF-8.
pub open spec fn byte_len(s: Seq<char>) -> int {
    byte_pos(s, s.len() as int)
}

pub proof fn lemma_byte_pos_mono(s: Seq<char>, i: int, j: int)
    requires
        0 <= i <= j <= s.len(),
    ensures
        i <= byte_pos(s, i) <= byte_pos(s, j),
        byte_pos(s, j) - byte_pos(s, i) >= j - i,
        byte_pos(s, j) <= 4 * j,
    decreases j - i,
{
    if i < j {
        lemma_byte_pos_mono(s, i, j - 1);
    } else {
        lemma_byte_pos_bound(s, j);
    }
}

proof fn lemma_byte_pos_bound(s: Seq<char>, j: int)
    requires
        0 <= j <= s.len(),
    ensures
        j <= byte_pos(s, j) <= 4 * j,
    decreases j,
{
    if j > 0 {
        lemma_byte_pos_bound(s, j - 1);
    }
}

/// The bytes of a sub-range, counted in UTF-8.
pub proof fn lemma_byte_len_subrange(s: Seq<char>, a: int, b: int)
    requires
        0 <= a <= b <= s.len(),
    ensures
        byte_len(s.subrange(a, b)) == byte_pos(s, b) - byte_pos(s, a),
    decreases b - a,
{
    let t = s.subrange(a, b);
    if a < b {
        lemma_byte_len_subrange(s, a, b - 1);
        assert(s.subrange(a, b - 1) =~= t.subrange(0, b - 1 - a));
        lemma_byte_pos_prefix(t, b - 1 - a);
    }
}

proof fn lemma_byte_pos_prefix(t: Seq<char>, k: int)
    requires
        0 <= k <= t.len(),
    ensures
        byte_len(t.subrange(0, k)) == byte_pos(t, k),
    decreases k,
{
    let u = t.subrange(0, k);
    if k > 0 {
        lemma_byte_pos_prefix(t, k - 1);
        assert(u.subrange(0, k - 1) =~= t.subrange(0, k - 1));
        lemma_byte_pos_prefix(u, k - 1);
    }
}

proof fn lemma_byte_pos_first(s: Seq<char>, i: int)
    requires
        1 <= i <= s.len(),
    ensures
        byte_pos(s, i) == utf8_len(s[0]) + byte_pos(s.drop_first(), i - 1),
    decreases i,
{
    let d = s.drop_first();
    if i > 1 {
        lemma_byte_pos_first(s, i - 1);
        assert(d[i - 2] == s[i - 1]);
        assert(byte_pos(d, i - 1) == byte_pos(d, i - 2) + utf8_len(d[i - 2]));
        assert(byte_pos(s, i) == byte_pos(s, i - 1) + utf8_len(s[i - 1]));
    } else {
        assert(byte_pos(s, 1) == byte_pos(s, 0) + utf8_len(s[0]));
        assert(byte_pos(d, 0) == 0);
    }
}

/// `byte_len` is the length of the encoding that `str` holds.
pub proof fn lemma_encode_len(s: Seq<char>)
    ensures
        vstd::utf8::encode_utf8(s).len() == byte_len(s),
    decreases s.len(),
{
    if s.len() > 0 {
        lemma_encode_len(s.drop_first());
        lemma_byte_pos_first(s, s.len() as int);
        vstd::utf8::char_is_scalar(s[0]);
        assert(vstd::utf8::encode_scalar(s[0] as u32).len() == utf8_len(s[0]));
    }
}

/// The byte offsets of every character index of `s`, and of its end.
pub fn byte_table(s: &Vec<char>) -> (t: Vec<usize>)
    requires
        4 * s@.len() <= usize::MAX,
    ensures
        t@.len() == s@.len() + 1,
        forall|i: int| 0 <= i <= s@.len() ==> t@[i] == byte_pos(s@, i),
{
    let mut t: Vec<usize> = Vec::new();
    t.push(0);
    let mut i: usize = 0;
    while i < s.len()
        invariant
            4 * s@.len() <= usize::MAX,
            0 <= i <= s@.len(),
            t@.len() == i + 1,
            forall|k: int| 0 <= k <= i ==> t@[k] == byte_pos(s@, k),
        decreases s@.len() - i,
    {
        proof {
            lemma_byte_pos_mono(s@, i as int, i + 1);
        }
        let u = s[i] as u32;
        let w: usize = if u < 0x80 {
            1
        } else if u < 0x800 {
            2
        } else if u < 0x10000 {
            3
        } else {
            4
        };
        let prev = t[i];
        t.push(prev + w);
        i = i + 1;
    }
    t
}

/// The characters of `s`, in order.
pub fn chars_of(s: &str) -> (v: Vec<char>)
    ensures
        v@ == s@,
{
    let mut v: Vec<char> = Vec::new();
    for c in it: s.chars()
        invariant
            v@ == it.seq().take(it.index()),
    {
        v.push(c);
    }
    v
}

/// Builds a `String` that holds the given characters, through
/// `String: FromIterator<char>`; the contract claims that the string's
/// characters are those of the slice, in order.
#[verifier::external_body]
pub(crate) fn string_of(v: &[char]) -> (s: String)
    ensures
        s@ == v@,
{
    v.iter().collect::<String>()
}

/// The characters of a sub-range as a `String`.
pub fn string_of_range(s: &Vec<char>, a: usize, b: usize) -> (r: String)
    requires
        a <= b <= s@.len(),
    ensures
        r@ == s@.subrange(a as int, b as int),
{
    let v = copy_range(s, a, b);
    string_of(v.as_slice())
}

pub fn copy_range(s: &Vec<char>, a: usize, b: usize) -> (v: Vec<char>)
    requires
        a <= b <= s@.len(),
    ensures
        v@ == s@.subrange(a as int, b as int),
{
    let mut v: Vec<char> = Vec::new();
    let mut i = a;
    while i < b
        invariant
            a <= i <= b <= s@.len(),
            v@ == s@.subrange(a as int, i as int),
        decreases b - i,
    {
        v.push(s[i]);
        i = i + 1;
    }
    v
}

/// First index in `[a, b)` that holds `c`, or `b`.
pub open spec fn find_char(s: Seq<char>, a: int, b: int, c: char) -> int
    decreases b - a,
{
    if a >= b {
        b
    } else if s[a] == c {
        a
    } else {
        find_char(s, a + 1, b, c)
    }
}

pub proof fn lemma_find_char(s: Seq<char>, a: int, b: int, c: char)
    requires
        a <= b,
    ensures
        a <= find_char(s, a, b, c) <= b,
        forall|k: int| a <= k < find_char(s, a, b, c) ==> s[k] != c,
        find_char(s, a, b, c) < b ==> s[find_char(s, a, b, c)] == c,
    decreases b - a,
{
    if a < b && s[a] != c {
        lemma_find_char(s, a + 1, b, c);
    }
}

pub fn first_of(s: &Vec<char>, a: usize, b: usize, c: char) -> (r: usize)
    requires
        a <= b <= s@.len(),
    ensures
        r == find_char(s@, a as int, b as int, c),
{
    let mut i = a;
    while i < b
        invariant
            a <= i <= b <= s@.len(),
            find_char(s@, i as int, b as int, c) == find_char(s@, a as int, b as int, c),
        decreases b - i,
    {
        if s[i] == c {
            return i;
        }
        i = i + 1;
    }
    i
}

/// Whether the range holds `c` anywhere.
pub open spec fn has_char(s: Seq<char>, a: int, b: int, c: char) -> bool {
    find_char(s, a, b, c) < b
}

/// Start of the range with leading white space removed.
pub open spec fn trim_start(s: Seq<char>, a: int, b: int) -> int
    decreases b - a,
{
    if a >= b {
        b
    } else if is_white_space(s[a]) {
        trim_start(s, a + 1, b)
    } else {
        a
    }
}

/// End of the range with trailing white space removed.
pub open spec fn trim_end(s: Seq<char>, a: int, b: int) -> int
    decreases b - a,
{
    if b <= a {
        a
    } else if is_white_space(s[b - 1]) {
        trim_end(s, a, b - 1)
    } else {
        b
    }
}

/// `str::trim` on a range: the range without white space at either end.
pub open spec fn trim(s: Seq<char>, a: int, b: int) -> (int, int) {
    let ta = trim_start(s, a, b);
    (ta, trim_end(s, ta, b))
}

pub proof fn lemma_trim(s: Seq<char>, a: int, b: int)
    requires
        a <= b,
    ensures
        a <= trim_start(s, a, b) <= b,
        trim_start(s, a, b) <= trim_end(s, trim_start(s, a, b), b) <= b,
        trim_start(s, a, b) < b ==> !is_white_space(s[trim_start(s, a, b)]),
        trim_start(s, a, b) < trim_end(s, trim_start(s, a, b), b) ==> !is_white_space(
            s[trim_end(s, trim_start(s, a, b), b) - 1],
        ),
{
    lemma_trim_start(s, a, b);
    lemma_trim_end(s, trim_start(s, a, b), b);
}

proof fn lemma_trim_start(s: Seq<char>, a: int, b: int)
    requires
        a <= b,
    ensures
        a <= trim_start(s, a, b) <= b,
        trim_start(s, a, b) < b ==> !is_white_space(s[trim_start(s, a, b)]),
    decreases b - a,
{
    if a < b && is_white_space(s[a]) {
        lemma_trim_start(s, a + 1, b);
    }
}

proof fn lemma_trim_end(s: Seq<char>, a: int, b: int)
    requires
        a <= b,
    ensures
        a <= trim_end(s, a, b) <= b,
        a < trim_end(s, a, b) ==> !is_white_space(s[trim_end(s, a, b) - 1]),
    decreases b - a,
{
    if a < b && is_white_space(s[b - 1]) {
        lemma_trim_end(s, a, b - 1);
    }
}

proof fn lemma_trim_start_shift(s: Seq<char>, a: int, i: int, b: int)
    requires
        0 <= a <= i <= b <= s.len(),
    ensures
        trim_start(s.subrange(a, b), i - a, b - a) == trim_start(s, i, b) - a,
    decreases b - i,
{
    if i < b {
        assert(s.subrange(a, b)[i - a] == s[i]);
        lemma_trim_start_shift(s, a, i + 1, b);
    }
}

proof fn lemma_trim_end_shift(s: Seq<char>, a: int, i: int, j: int, b: int)
    requires
        0 <= a <= i <= j <= b <= s.len(),
    ensures
        trim_end(s.subrange(a, b), i - a, j - a) == trim_end(s, i, j) - a,
    decreases j - i,
{
    if i < j {
        assert(s.subrange(a, b)[j - 1 - a] == s[j - 1]);
        lemma_trim_end_shift(s, a, i, j - 1, b);
    }
}

/// Trimming a sub-range is trimming the range.
pub proof fn lemma_trim_shift(s: Seq<char>, a: int, b: int)
    requires
        0 <= a <= b <= s.len(),
    ensures
        trim(s.subrange(a, b), 0, b - a) == (trim(s, a, b).0 - a, trim(s, a, b).1 - a),
{
    lemma_trim_start_shift(s, a, a, b);
    lemma_trim(s, a, b);
    lemma_trim_end_shift(s, a, trim_start(s, a, b), b, b);
}

pub fn trim_range(s: &Vec<char>, a: usize, b: usize) -> (r: (usize, usize))
    requires
        a <= b <= s@.len(),
    ensures
        (r.0 as int, r.1 as int) == trim(s@, a as int, b as int),
        a <= r.0 <= r.1 <= b,
{
    proof {
        lemma_trim(s@, a as int, b as int);
    }
    let mut i = a;
    while i < b && white_space(s[i])
        invariant
            a <= i <= b <= s@.len(),
            trim_start(s@, i as int, b as int) == trim_start(s@, a as int, b as int),
        decreases b - i,
    {
        i = i + 1;
    }
    let mut j = b;
    while j > i && white_space(s[j - 1])
        invariant
            i <= j <= b <= s@.len(),
            trim_end(s@, i as int, j as int) == trim_end(s@, i as int, b as int),
        decreases j,
    {
        j = j - 1;
    }
    (i, j)
}

/// The line ranges of `s`, following `str::lines`: lines end at `\n` or at
/// `\r\n`, terminators are left out, and a final terminator starts no line.
/// `start` is where the line under way began.
pub open spec fn line_scan(s: Seq<char>, i: int, start: int) -> Seq<(int, int)>
    decreases s.len() - i,
{
    if i >= s.len() {
        if start < s.len() {
            seq![(start, s.len() as int)]
        } else {
            seq![]
        }
    } else if s[i] == '\n' {
        let e = if i > start && s[i - 1] == '\r' {
            i - 1
        } else {
            i
        };
        seq![(start, e)] + line_scan(s, i + 1, i + 1)
    } else {
        line_scan(s, i + 1, start)
    }
}

pub open spec fn lines(s: Seq<char>) -> Seq<(int, int)> {
    line_scan(s, 0, 0)
}

pub open spec fn ranges_view(v: Seq<(usize, usize)>) -> Seq<(int, int)> {
    v.map_values(|p: (usize, usize)| (p.0 as int, p.1 as int))
}

pub open spec fn ranges_within(r: Seq<(int, int)>, lo: int, hi: int) -> bool {
    forall|k: int| 0 <= k < r.len() ==> lo <= #[trigger] r[k].0 <= r[k].1 <= hi
}

proof fn lemma_line_scan_within(s: Seq<char>, i: int, start: int)
    requires
        0 <= start <= i <= s.len(),
    ensures
        ranges_within(line_scan(s, i, start), start, s.len() as int),
    decreases s.len() - i,
{
    if i < s.len() {
        if s[i] == '\n' {
            lemma_line_scan_within(s, i + 1, i + 1);
        } else {
            lemma_line_scan_within(s, i + 1, start);
        }
    }
}

pub fn line_ranges(s: &Vec<char>) -> (r: Vec<(usize, usize)>)
    ensures
        ranges_view(r@) == lines(s@),
        ranges_within(lines(s@), 0, s@.len() as int),
{
    proof {
        lemma_line_scan_within(s@, 0, 0);
    }
    let mut r: Vec<(usize, usize)> = Vec::new();
    let mut start: usize = 0;
    let mut i: usize = 0;
    while i < s.len()
        invariant
            0 <= start <= i <= s@.len(),
            ranges_view(r@) + line_scan(s@, i as int, start as int) == lines(s@),
        decreases s@.len() - i,
    {
        if s[i] == '\n' {
            let e = if i > start && s[i - 1] == '\r' {
                i - 1
            } else {
                i
            };
            proof {
                assert(ranges_view(r@.push((start, e))) =~= ranges_view(r@) + seq![
                    (start as int, e as int),
                ]);
            }
            r.push((start, e));
            start = i + 1;
        }
        i = i + 1;
    }
    if start < s.len() {
        proof {
            assert(ranges_view(r@.push((start, s@.len() as usize))) =~= ranges_view(r@) + seq![
                (start as int, s@.len() as int),
            ]);
        }
        r.push((start, s.len()));
    } else {
        assert(ranges_view(r@) + seq![] =~= ranges_view(r@));
    }
    r
}

/// The tokens of `[i, b)`: maximal runs of characters that are no separator.
/// `start` is where the token under way began, if one is under way.
pub open spec fn token_scan(s: Seq<char>, i: int, b: int, commas: bool, start: Option<int>) -> Seq<
    (int, int),
>
    decreases b - i,
{
    if i >= b {
        match start {
            Some(st) => seq![(st, b)],
            None => seq![],
        }
    } else if is_sep(s[i], commas) {
        match start {
            Some(st) => seq![(st, i)] + token_scan(s, i + 1, b, commas, None),
            None => token_scan(s, i + 1, b, commas, None),
        }
    } else {
        token_scan(
            s,
            i + 1,
            b,
            commas,
            if start is None {
                Some(i)
            } else {
                start
            },
        )
    }
}

/// `split_whitespace`, and with `commas` also `split(',')` on each piece with
/// empty pieces dropped, on the range `[a, b)`.
pub open spec fn tokens(s: Seq<char>, a: int, b: int, commas: bool) -> Seq<(int, int)> {
    token_scan(s, a, b, commas, None)
}

/// Every token is a non-empty run of non-separators inside the range, and the
/// tokens come in order.
pub open spec fn tokens_wf(s: Seq<char>, t: Seq<(int, int)>, a: int, b: int, commas: bool) -> bool {
    &&& ranges_within(t, a, b)
    &&& forall|k: int| 0 <= k < t.len() ==> #[trigger] t[k].0 < t[k].1
    &&& forall|k: int, j: int|
        #![trigger t[k], s[j]]
        0 <= k < t.len() && t[k].0 <= j < t[k].1 ==> !is_sep(s[j], commas)
    &&& forall|k: int| 0 <= k < t.len() - 1 ==> #[trigger] t[k].1 < t[k + 1].0
}

proof fn lemma_token_scan_wf(s: Seq<char>, i: int, b: int, commas: bool, start: Option<int>)
    requires
        i <= b <= s.len(),
        start matches Some(st) ==> 0 <= st < i && forall|j: int|
            st <= j < i ==> !is_sep(#[trigger] s[j], commas),
        start is None ==> 0 <= i,
    ensures
        tokens_wf(s, token_scan(s, i, b, commas, start), match start {
            Some(st) => st,
            None => i,
        }, b, commas),
    decreases b - i,
{
    if i < b {
        if is_sep(s[i], commas) {
            lemma_token_scan_wf(s, i + 1, b, commas, None);
            let rest = token_scan(s, i + 1, b, commas, None);
            if let Some(st) = start {
                let t = seq![(st, i)] + rest;
                assert forall|k: int, j: int|
                    #![trigger t[k], s[j]]
                    0 <= k < t.len() && t[k].0 <= j < t[k].1 implies !is_sep(s[j], commas) by {
                    if k > 0 {
                        assert(t[k] == rest[k - 1]);
                    }
                }
                assert forall|k: int| 0 <= k < t.len() - 1 implies #[trigger] t[k].1 < t[k
                    + 1].0 by {
                    if k > 0 {
                        assert(t[k] == rest[k - 1]);
                        assert(t[k + 1] == rest[k]);
                    } else {
                        assert(t[1] == rest[0]);
                    }
                }
                assert forall|k: int| 0 <= k < t.len() implies #[trigger] t[k].0 < t[k].1 by {
                    if k > 0 {
                        assert(t[k] == rest[k - 1]);
                    }
                }
                assert forall|k: int| 0 <= k < t.len() implies st <= #[trigger] t[k].0 <= t[k].1
                    <= b by {
                    if k > 0 {
                        assert(t[k] == rest[k - 1]);
                    }
                }
            }
        } else {
            let ns = if start is None {
                Some(i)
            } else {
                start
            };
            lemma_token_scan_wf(s, i + 1, b, commas, ns);
        }
    }
}

pub proof fn lemma_tokens_wf(s: Seq<char>, a: int, b: int, commas: bool)
    requires
        0 <= a <= b <= s.len(),
    ensures
        tokens_wf(s, tokens(s, a, b, commas), a, b, commas),
{
    lemma_token_scan_wf(s, a, b, commas, None);
}

proof fn lemma_token_scan_len(s: Seq<char>, i: int, b: int, commas: bool, start: Option<int>)
    requires
        i <= b,
    ensures
        token_scan(s, i, b, commas, start).len() <= b - i + (if start is Some {
            1int
        } else {
            0int
        }),
    decreases b - i,
{
    if i < b {
        if is_sep(s[i], commas) {
            lemma_token_scan_len(s, i + 1, b, commas, None);
        } else {
            let ns = if start is None {
                Some(i)
            } else {
                start
            };
            lemma_token_scan_len(s, i + 1, b, commas, ns);
        }
    }
}

/// A range has no more tokens than characters.
pub proof fn lemma_tokens_len(s: Seq<char>, a: int, b: int, commas: bool)
    requires
        a <= b,
    ensures
        tokens(s, a, b, commas).len() <= b - a,
{
    lemma_token_scan_len(s, a, b, commas, None);
}

pub fn token_ranges(s: &Vec<char>, a: usize, b: usize, commas: bool) -> (r: Vec<(usize, usize)>)
    requires
        a <= b <= s@.len(),
    ensures
        ranges_view(r@) == tokens(s@, a as int, b as int, commas),
        tokens_wf(s@, tokens(s@, a as int, b as int, commas), a as int, b as int, commas),
        r@.len() <= b - a,
{
    proof {
        lemma_tokens_wf(s@, a as int, b as int, commas);
        lemma_tokens_len(s@, a as int, b as int, commas);
    }
    let mut r: Vec<(usize, usize)> = Vec::new();
    let mut start: Option<usize> = None;
    let mut i = a;
    while i < b
        invariant
            a <= i <= b <= s@.len(),
            start matches Some(st) ==> st < i,
            ranges_view(r@) + token_scan(
                s@,
                i as int,
                b as int,
                commas,
                match start {
                    Some(st) => Some(st as int),
                    None => None,
                },
            ) == tokens(s@, a as int, b as int, commas),
        decreases b - i,
    {
        if sep(s[i], commas) {
            if let Some(st) = start {
                proof {
                    assert(ranges_view(r@.push((st, i))) =~= ranges_view(r@) + seq![
                        (st as int, i as int),
                    ]);
                }
                r.push((st, i));
            }
            start = None;
        } else {
            if start.is_none() {
                start = Some(i);
            }
        }
        i = i + 1;
    }
    if let Some(st) = start {
        proof {
            assert(ranges_view(r@.push((st, b))) =~= ranges_view(r@) + seq![(st as int, b as int)]);
        }
        r.push((st, b));
    } else {
        assert(ranges_view(r@) + seq![] =~= ranges_view(r@));
    }
    r
}

proof fn lemma_scan_open(s: Seq<char>, i: int, b: int, commas: bool, st: int)
    requires
        i <= b,
    ensures
        token_scan(s, i, b, commas, Some(st)).len() > 0,
        token_scan(s, i, b, commas, Some(st))[0].0 == st,
    decreases b - i,
{
    if i < b && !is_sep(s[i], commas) {
        lemma_scan_open(s, i + 1, b, commas, st);
    }
}

/// A range that begins with a non-separator has a first token that begins
/// there.
pub proof fn lemma_first_token(s: Seq<char>, a: int, b: int, commas: bool)
    requires
        0 <= a < b <= s.len(),
        !is_sep(s[a], commas),
    ensures
        tokens(s, a, b, commas).len() > 0,
        tokens(s, a, b, commas)[0].0 == a,
{
    lemma_scan_open(s, a + 1, b, commas, a);
}

/// Whether the range `[a, b)` of `s` reads `t`.
pub fn range_is(s: &Vec<char>, a: usize, b: usize, t: &Vec<char>) -> (r: bool)
    requires
        a <= b <= s@.len(),
    ensures
        r == (s@.subrange(a as int, b as int) == t@),
{
    if b - a != t.len() {
        proof {
            assert(s@.subrange(a as int, b as int).len() != t@.len());
        }
        return false;
    }
    let mut i: usize = 0;
    while i < t.len()
        invariant
            a <= b <= s@.len(),
            b - a == t@.len(),
            0 <= i <= t@.len(),
            forall|k: int| 0 <= k < i ==> s@[a + k] == t@[k],
        decreases t@.len() - i,
    {
        if s[a + i] != t[i] {
            proof {
                assert(s@.subrange(a as int, b as int)[i as int] != t@[i as int]);
            }
            return false;
        }
        i = i + 1;
    }
    proof {
        assert(s@.subrange(a as int, b as int) =~= t@);
    }
    true
}

/// Whether `t` occurs in `s` as a contiguous piece.
pub open spec fn occurs_in(t: Seq<char>, s: Seq<char>) -> bool {
    exists|k: int| 0 <= k && k + t.len() <= s.len() && #[trigger] s.subrange(k, k + t.len()) == t
}

/// Whether `[ta, tb)` occurs inside `[sa, sb)`, both ranges of `s`.
pub fn range_occurs_in(s: &Vec<char>, ta: usize, tb: usize, sa: usize, sb: usize) -> (r: bool)
    requires
        ta <= tb <= s@.len(),
        sa <= sb <= s@.len(),
    ensures
        r == occurs_in(s@.subrange(ta as int, tb as int), s@.subrange(sa as int, sb as int)),
{
    let ghost t = s@.subrange(ta as int, tb as int);
    let ghost h = s@.subrange(sa as int, sb as int);
    let n = tb - ta;
    if n > sb - sa {
        proof {
            assert forall|k: int| 0 <= k && k + t.len() <= h.len() implies #[trigger] h.subrange(
                k,
                k + t.len(),
            ) != t by {}
        }
        return false;
    }
    let mut k: usize = 0;
    while k <= (sb - sa) - n
        invariant
            ta <= tb <= s@.len(),
            sa <= sb <= s@.len(),
            n == tb - ta,
            n <= sb - sa,
            t == s@.subrange(ta as int, tb as int),
            h == s@.subrange(sa as int, sb as int),
            k <= sb - sa - n + 1,
            forall|j: int| 0 <= j < k && j + t.len() <= h.len() ==> #[trigger] h.subrange(
                j,
                j + t.len(),
            ) != t,
        decreases sb - sa - k,
    {
        let mut i: usize = 0;
        while i < n && s[sa + k + i] == s[ta + i]
            invariant
                ta <= tb <= s@.len(),
                sa <= sb <= s@.len(),
                n == tb - ta,
                k + n <= sb - sa,
                0 <= i <= n,
                s@.subrange(sa + k, sa + k + i) == s@.subrange(ta as int, ta + i),
            decreases n - i,
        {
            proof {
                assert(s@.subrange(sa + k, sa + k + i + 1) =~= s@.subrange(sa + k, sa + k + i)
                    + seq![s@[sa + k + i]]);
                assert(s@.subrange(ta as int, ta + i + 1) =~= s@.subrange(ta as int, ta + i)
                    + seq![s@[ta + i]]);
            }
            i = i + 1;
        }
        if i == n {
            proof {
                assert(h.subrange(k as int, k + t.len()) =~= s@.subrange(sa + k, sa + k + n));
            }
            return true;
        }
        proof {
            assert(h.subrange(k as int, k + t.len())[i as int] != t[i as int]);
        }
        k = k + 1;
    }
    false
}

/// Decimal digits of `n`, most significant first, with no leading zero.
pub open spec fn decimal(n: nat) -> Seq<char>
    decreases n,
{
    if n < 10 {
        seq![digit_char(n)]
    } else {
        decimal(n / 10) + seq![digit_char(n % 10)]
    }
}

pub open spec fn digit_char(d: nat) -> char {
    if d == 0 {
        '0'
    } else if d == 1 {
        '1'
    } else if d == 2 {
        '2'
    } else if d == 3 {
        '3'
    } else if d == 4 {
        '4'
    } else if d == 5 {
        '5'
    } else if d == 6 {
        '6'
    } else if d == 7 {
        '7'
    } else if d == 8 {
        '8'
    } else {
        '9'
    }
}

fn digit(d: u64) -> (c: char)
    requires
        d < 10,
    ensures
        c == digit_char(d as nat),
{
    if d == 0 {
        '0'
    } else if d == 1 {
        '1'
    } else if d == 2 {
        '2'
    } else if d == 3 {
        '3'
    } else if d == 4 {
        '4'
    } else if d == 5 {
        '5'
    } else if d == 6 {
        '6'
    } else if d == 7 {
        '7'
    } else if d == 8 {
        '8'
    } else {
        '9'
    }
}

/// Appends the decimal digits of `n` to `out`.
pub fn push_decimal(out: &mut Vec<char>, n: u64)
    ensures
        final(out)@ == old(out)@ + decimal(n as nat),
    decreases n,
{
    if n < 10 {
        let c = digit(n);
        out.push(c);
    } else {
        push_decimal(out, n / 10);
        let c = digit(n % 10);
        out.push(c);
        proof {
            assert(decimal(n as nat) == decimal((n / 10) as nat) + seq![digit_char((n % 10) as nat)]);
        }
    }
}

/// Appends the characters of a literal to `out`.
pub fn push_str(out: &mut Vec<char>, t: &str)
    ensures
        final(out)@ == old(out)@ + t@,
{
    let v = chars_of(t);
    let mut i: usize = 0;
    while i < v.len()
        invariant
            v@ == t@,
            0 <= i <= v@.len(),
            out@ == old(out)@ + v@.subrange(0, i as int),
        decreases v@.len() - i,
    {
        out.push(v[i]);
        i = i + 1;
        proof {
            assert(v@.subrange(0, i as int) =~= v@.subrange(0, i - 1) + seq![v@[i - 1]]);
        }
    }
    proof {
        assert(v@.subrange(0, v@.len() as int) =~= v@);
    }
}

/// Appends `t` to `out`.
pub fn push_chars(out: &mut Vec<char>, t: &Vec<char>)
    ensures
        final(out)@ == old(out)@ + t@,
{
    let mut i: usize = 0;
    while i < t.len()
        invariant
            0 <= i <= t@.len(),
            out@ == old(out)@ + t@.subrange(0, i as int),
        decreases t@.len() - i,
    {
        out.push(t[i]);
        i = i + 1;
        proof {
            assert(t@.subrange(0, i as int) =~= t@.subrange(0, i - 1) + seq![t@[i - 1]]);
        }
    }
    proof {
        assert(t@.subrange(0, t@.len() as int) =~= t@);
    }
}

} // verus!
