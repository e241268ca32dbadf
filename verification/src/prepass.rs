//! The assembler's first pass: where each label stands, and the memory
//! contents that data definitions (`.dw`, `.dsprrow`) set.
use vstd::prelude::*;
use crate::asm_error::{errors_view, span, AssemblerError, ErrorView, Span};
use crate::numbers::{leading_minus, leading_minus_in, parsed_number};
use crate::data_table::DataTable;
use crate::labels::LabelTable;
use crate::numbers::{parse_prefixed_u16, IntErrorKind};
use crate::text::{
    byte_pos, find_char, first_of, occurs_in, range_is, range_occurs_in, ranges_view,
    ranges_within, string_of_range, token_ranges, tokens, tokens_wf, trim, trim_range, chars_of,
    lemma_byte_pos_mono, lemma_tokens_wf, lemma_find_char, lemma_trim, lines, lemma_first_token,
};
use crate::instruction::source_wf;

verus! {

/// What the first pass has gathered after some lines.
pub struct Pass {
    pub labels: Map<Seq<char>, u16>,
    /// the lines that defined each label first
    pub firsts: Seq<(int, int)>,
    /// the position of the next instruction
    pub instr: int,
    /// where the next data definition writes, unless it says `at`
    pub di: int,
    pub data: Map<u16, u16>,
    pub errors: Seq<ErrorView>,
    /// whether a line was met on which the pass does not finish
    pub panics: bool,
}

/// The text with every `:` taken out.
pub open spec fn remove_colons(t: Seq<char>) -> Seq<char>
    decreases t.len(),
{
    if t.len() == 0 {
        seq![]
    } else {
        remove_colons(t.drop_last()) + (if t.last() == ':' {
            seq![]
        } else {
            seq![t.last()]
        })
    }
}

/// The first of `firsts`, from `k` on, whose text holds the text `s[ta..te]`,
/// or -1.
pub open spec fn first_containing(s: Seq<char>, firsts: Seq<(int, int)>, k: int, ta: int, te: int) -> int
    decreases firsts.len() - k,
{
    if k < 0 || k >= firsts.len() {
        -1
    } else if occurs_in(s.subrange(ta, te), s.subrange(firsts[k].0, firsts[k].1)) {
        k
    } else {
        first_containing(s, firsts, k + 1, ta, te)
    }
}

pub open spec fn tok_text(s: Seq<char>, r: (int, int)) -> Seq<char> {
    s.subrange(r.0, r.1)
}

pub open spec fn tok_span(s: Seq<char>, r: (int, int)) -> Span {
    span(byte_pos(s, r.0), byte_pos(s, r.1) - byte_pos(s, r.0))
}

/// A label line `s[ta..te]` (which ends with `:`): the label, the line without
/// its colons, now stands for the next instruction's position. A label that
/// was already defined is an error, which points at the first earlier
/// definition whose line holds this one's text.
pub open spec fn label_step(s: Seq<char>, p: Pass, ta: int, te: int) -> Pass {
    let key = remove_colons(s.subrange(ta, te));
    let labels = p.labels.insert(key, p.instr as u16);
    if !p.labels.contains_key(key) {
        Pass { labels, firsts: p.firsts.push((ta, te)), ..p }
    } else {
        let f = first_containing(s, p.firsts, 0, ta, te);
        if f < 0 {
            Pass { panics: true, ..p }
        } else {
            let len = byte_pos(s, te) - byte_pos(s, ta);
            Pass {
                labels,
                errors: p.errors.push(
                    ErrorView::LabelDefinedMultipleTimes {
                        span: span(byte_pos(s, p.firsts[f].0), len),
                        span1: span(byte_pos(s, ta), len),
                    },
                ),
                ..p
            }
        }
    }
}

/// How far the operators of a data definition have been read.
pub struct Ops {
    /// the next token
    pub k: int,
    /// a number met where an operator was expected
    pub lonely: Option<(int, int)>,
    pub di: int,
    pub reps: int,
    pub errors: Seq<ErrorView>,
    pub panics: bool,
}

/// The number after an operator: the token at `k`, or the empty text where
/// the line has ended; a number that fails to parse counts as 0.
pub open spec fn operand(s: Seq<char>, toks: Seq<(int, int)>, k: int) -> (int, Seq<ErrorView>, bool) {
    if k >= toks.len() {
        match parsed_number(Seq::<char>::empty()) {
            Ok(v) => (v as int, seq![], false),
            Err(_) => (0, seq![], true),
        }
    } else {
        let t = tok_text(s, toks[k]);
        if leading_minus(t) {
            (0, seq![], true)
        } else {
            match parsed_number(t) {
                Ok(v) => (v as int, seq![], false),
                Err(kind) => (
                    0,
                    seq![
                        ErrorView::FailedToParseNumber {
                            number: t,
                            parseerror: kind,
                            span: tok_span(s, toks[k]),
                        },
                    ],
                    false,
                ),
            }
        }
    }
}

/// Reads one operator of a data definition: `at N` sets where the data goes,
/// `repeat N` how often it is written; a number there is remembered (an
/// operator after it is an error) and anything else is an error.
#[verifier::opaque]
pub open spec fn op_step(s: Seq<char>, toks: Seq<(int, int)>, numbers: Seq<Seq<char>>, o: Ops) -> Ops {
    if o.panics || o.k >= toks.len() {
        o
    } else {
        let t = tok_text(s, toks[o.k]);
        if t == "at"@ || t == "repeat"@ {
            let e0 = match o.lonely {
                Some(n) => seq![ErrorView::NumberInfrontOperation { span: tok_span(s, n) }],
                None => seq![],
            };
            let (v, e1, pan) = operand(s, toks, o.k + 1);
            let o2 = Ops { k: o.k + 2, errors: o.errors + e0 + e1, panics: pan, ..o };
            if t == "at"@ {
                Ops { di: v, ..o2 }
            } else {
                Ops { reps: v, ..o2 }
            }
        } else if numbers.contains(t) {
            Ops { k: o.k + 1, lonely: Some(toks[o.k]), ..o }
        } else {
            Ops {
                k: o.k + 1,
                errors: o.errors.push(ErrorView::UnknownDataOperator { span: tok_span(s, toks[o.k]) }),
                ..o
            }
        }
    }
}

/// The data of `.dw`: the number at `k`, which is an error if it is 0. When
/// the number is missing, that is an error and 1 is written.
pub open spec fn dw_data(s: Seq<char>, toks: Seq<(int, int)>, k: int) -> (Seq<u16>, Seq<ErrorView>, bool) {
    if k < toks.len() {
        let t = tok_text(s, toks[k]);
        if leading_minus(t) {
            (seq![], seq![], true)
        } else {
            let (v, e) = match parsed_number(t) {
                Ok(v) => (v, seq![]),
                Err(kind) => (
                    1u16,
                    seq![
                        ErrorView::FailedToParseNumber {
                            number: t,
                            parseerror: kind,
                            span: tok_span(s, toks[k]),
                        },
                    ],
                ),
            };
            let e2 = if v == 0 {
                seq![ErrorView::UselessDataDefinition { span: tok_span(s, toks[k]) }]
            } else {
                seq![]
            };
            (seq![v], e + e2, false)
        }
    } else {
        let ew = seq![
            ErrorView::WrongArgumentAmount {
                expected_amount: 1,
                amount: 0,
                span: span(byte_pos(s, toks[0].1), 1),
            },
        ];
        match parsed_number("1"@) {
            Ok(v) => if v == 0 {
                (seq![], ew, true)
            } else {
                (seq![v], ew, false)
            },
            Err(_) => (seq![], ew, true),
        }
    }
}

/// The tokens of a `.dsprrow` that are written: all eight when there are
/// eight, and else those between the first and the last.
pub open spec fn row_tokens(toks: Seq<(int, int)>, k: int) -> Seq<(int, int)> {
    let rem = toks.subrange(clamp(k, toks.len() as int), toks.len() as int);
    if rem.len() == 8 {
        rem
    } else if rem.len() >= 2 {
        rem.subrange(1, rem.len() - 1)
    } else {
        seq![]
    }
}

/// `k`, but no further than `n`.
pub open spec fn clamp(k: int, n: int) -> int {
    if k < n {
        k
    } else {
        n
    }
}

/// The error of a `.dsprrow` that has not eight numbers.
pub open spec fn row_amount_errors(s: Seq<char>, toks: Seq<(int, int)>, k: int) -> Seq<ErrorView> {
    let rem = toks.subrange(clamp(k, toks.len() as int), toks.len() as int);
    if rem.len() == 8 {
        seq![]
    } else {
        let start = if rem.len() >= 1 {
            byte_pos(s, rem[0].0)
        } else {
            byte_pos(s, toks[0].1) + 1
        };
        let len = if rem.len() >= 2 {
            byte_pos(s, rem.last().1) - byte_pos(s, rem[0].0)
        } else {
            byte_pos(s, toks[0].1) + 1
        };
        seq![
            ErrorView::WrongArgumentAmount {
                expected_amount: 8,
                amount: rem.len() as usize,
                span: span(start, len),
            },
        ]
    }
}

/// The shift that places the `i`-th pixel of a row in its word.
pub open spec fn pixel_shift(i: int) -> u16 {
    ((3 - i % 4) * 4) as u16
}

/// The two words of a sprite row after its first `j` numbers: four pixels
/// of four bits per word, the first in the high nibble; number `i` (at most
/// 15, else an error) is shifted into its place in word `i / 4`.
pub open spec fn row_fold(s: Seq<char>, p: Seq<(int, int)>, j: int) -> (Seq<u16>, Seq<ErrorView>, bool)
    decreases j,
{
    if j <= 0 {
        (seq![0u16, 0u16], seq![], false)
    } else {
        let prev = row_fold(s, p, j - 1);
        let i = j - 1;
        let t = tok_text(s, p[i]);
        if prev.2 || leading_minus(t) || i >= 8 {
            (prev.0, prev.1, true)
        } else {
            let (v, e1) = match parsed_number(t) {
                Ok(v) => (v, seq![]),
                Err(kind) => (
                    1u16,
                    seq![
                        ErrorView::FailedToParseNumber {
                            number: t,
                            parseerror: kind,
                            span: tok_span(s, p[i]),
                        },
                    ],
                ),
            };
            let e2 = if v > 15 {
                seq![ErrorView::PaletteIndexOutOfBounds { number: v, span: tok_span(s, p[i]) }]
            } else {
                seq![]
            };
            (prev.0.update(i / 4, prev.0[i / 4] | (v << pixel_shift(i))), prev.1 + e1 + e2, false)
        }
    }
}

/// The data of a data definition whose kind is the token `toks[0]`, read from
/// token `k` on; a kind other than `.dw` and `.dsprrow` does not finish.
#[verifier::opaque]
pub open spec fn directive_data(s: Seq<char>, toks: Seq<(int, int)>, k: int) -> (Seq<u16>, Seq<ErrorView>, bool) {
    let ty = tok_text(s, toks[0]);
    if ty == ".dw"@ {
        dw_data(s, toks, k)
    } else if ty == ".dsprrow"@ {
        let p = row_tokens(toks, k);
        let r = row_fold(s, p, p.len() as int);
        (r.0, row_amount_errors(s, toks, k) + r.1, r.2)
    } else {
        (seq![], seq![], true)
    }
}

/// `m` with `n` values written from address `di` on, cycling through `vals`.
pub open spec fn write_data(m: Map<u16, u16>, di: int, vals: Seq<u16>, n: int) -> Map<u16, u16> {
    Map::new(
        |x: u16| m.contains_key(x) || (di <= x < di + n),
        |x: u16|
            if di <= x < di + n {
                vals[(x - di) % (vals.len() as int)]
            } else {
                m[x]
            },
    )
}

pub open spec fn start_ops(p: Pass) -> Ops {
    Ops { k: 1, lonely: None, di: p.di, reps: 1, errors: p.errors, panics: false }
}

/// A data definition `s[ta..te]`: two operators at most, then the data, which
/// is written `repeat` times from the data position on; a definition whose
/// end (the position plus the data's length times the repetitions) passes
/// 65535 is an error and writes nothing.
#[verifier::opaque]
pub open spec fn directive_step(s: Seq<char>, numbers: Seq<Seq<char>>, p: Pass, ta: int, te: int) -> Pass {
    let toks = tokens(s, ta, te, true);
    let o = op_step(s, toks, numbers, op_step(s, toks, numbers, start_ops(p)));
    if o.panics {
        Pass { panics: true, ..p }
    } else {
        let (vals, e, pan) = directive_data(s, toks, o.k);
        if pan {
            Pass { panics: true, ..p }
        } else {
            let errs = o.errors + e;
            let end = o.di + o.reps * vals.len();
            if end > 65535 {
                Pass {
                    di: o.di,
                    errors: errs.push(
                        ErrorView::DataInitializedBeyondRAMBounds {
                            address: end as usize,
                            span: span(byte_pos(s, ta), byte_pos(s, te) - byte_pos(s, ta)),
                        },
                    ),
                    ..p
                }
            } else {
                Pass {
                    di: end,
                    data: write_data(p.data, o.di, vals, o.reps * vals.len()),
                    errors: errs,
                    ..p
                }
            }
        }
    }
}

/// The bound on a data definition that finishes: it is refused, with
/// `DataInitializedBeyondRAMBounds` at its end address, exactly when its
/// start (its `at` value, else where the previous definition ended) plus its
/// length (one word for `.dw`, two for `.dsprrow`) times its repetitions
/// passes 65535, and then it writes nothing; otherwise it writes its words
/// that many times from its start on, leaves every other address as it was,
/// and the next definition starts at its end.
pub proof fn lemma_data_bound(s: Seq<char>, numbers: Seq<Seq<char>>, p: Pass, ta: int, te: int)
    requires
        !directive_step(s, numbers, p, ta, te).panics,
    ensures
        ({
            let toks = tokens(s, ta, te, true);
            let o = op_step(s, toks, numbers, op_step(s, toks, numbers, start_ops(p)));
            let kind = tok_text(s, toks[0]);
            let vals = directive_data(s, toks, o.k).0;
            let len: int = if kind == ".dw"@ {
                1
            } else {
                2
            };
            let end = o.di + o.reps * len;
            let q = directive_step(s, numbers, p, ta, te);
            &&& kind == ".dw"@ || kind == ".dsprrow"@
            &&& vals.len() == len
            &&& end > 65535 ==> {
                &&& q.data == p.data
                &&& q.di == o.di
                &&& q.errors.last() == (ErrorView::DataInitializedBeyondRAMBounds {
                    address: end as usize,
                    span: span(byte_pos(s, ta), byte_pos(s, te) - byte_pos(s, ta)),
                })
            }
            &&& end <= 65535 ==> {
                &&& q.di == end
                &&& forall|x: u16| o.di <= x < end ==> #[trigger] q.data.contains_key(x) && q.data[x] == vals[(x - o.di) % len]
                &&& forall|x: u16|
                    !(o.di <= x < end) ==> (#[trigger] q.data.contains_key(x) == p.data.contains_key(x) && (
                    p.data.contains_key(x) ==> q.data[x] == p.data[x]))
            }
        }),
{
    reveal(directive_step);
    reveal(directive_data);
    let toks = tokens(s, ta, te, true);
    let o = op_step(s, toks, numbers, op_step(s, toks, numbers, start_ops(p)));
    let pr = row_tokens(toks, o.k);
    lemma_row_fold_len(s, pr, pr.len() as int);
}

/// One line of the first pass: the text before any `;`, trimmed, is a label
/// when it ends with `:`, a data definition when it begins with `.`, and
/// else an instruction, which takes the next position.
pub open spec fn prepass_line(s: Seq<char>, numbers: Seq<Seq<char>>, p: Pass, l: (int, int)) -> Pass {
    if p.panics {
        p
    } else {
        let c = find_char(s, l.0, l.1, ';');
        let tr = trim(s, l.0, c);
        if tr.0 == tr.1 {
            p
        } else if s[tr.1 - 1] == ':' {
            label_step(s, p, tr.0, tr.1)
        } else if s[tr.0] == '.' {
            directive_step(s, numbers, p, tr.0, tr.1)
        } else if p.instr >= 65535 {
            Pass { panics: true, ..p }
        } else {
            Pass { instr: p.instr + 1, ..p }
        }
    }
}

/// The first pass after the first `n` lines.
pub open spec fn passes(s: Seq<char>, numbers: Seq<Seq<char>>, ls: Seq<(int, int)>, n: int, p0: Pass) -> Pass
    decreases n,
{
    if n <= 0 {
        p0
    } else {
        prepass_line(s, numbers, passes(s, numbers, ls, n - 1, p0), ls[n - 1])
    }
}

pub proof fn lemma_panics_stay(s: Seq<char>, numbers: Seq<Seq<char>>, ls: Seq<(int, int)>, i: int, n: int, p0: Pass)
    requires
        0 <= i <= n,
        passes(s, numbers, ls, i, p0).panics,
    ensures
        passes(s, numbers, ls, n, p0).panics,
    decreases n - i,
{
    if i < n {
        lemma_panics_stay(s, numbers, ls, i, n - 1, p0);
    }
}

fn remove_colons_in(s: &Vec<char>, ta: usize, te: usize) -> (r: Vec<char>)
    requires
        ta <= te <= s@.len(),
    ensures
        r@ == remove_colons(s@.subrange(ta as int, te as int)),
{
    let mut r: Vec<char> = Vec::new();
    let mut i = ta;
    while i < te
        invariant
            ta <= i <= te <= s@.len(),
            r@ == remove_colons(s@.subrange(ta as int, i as int)),
        decreases te - i,
    {
        proof {
            assert(s@.subrange(ta as int, i + 1).drop_last() =~= s@.subrange(ta as int, i as int));
        }
        if s[i] != ':' {
            r.push(s[i]);
        }
        proof {
            assert(r@ =~= remove_colons(s@.subrange(ta as int, i + 1)));
        }
        i = i + 1;
    }
    r
}

fn find_containing(s: &Vec<char>, firsts: &Vec<(usize, usize)>, ta: usize, te: usize) -> (r: Option<usize>)
    requires
        ta <= te <= s@.len(),
        ranges_within(ranges_view(firsts@), 0, s@.len() as int),
    ensures
        match r {
            Some(f) => f < firsts@.len() && first_containing(s@, ranges_view(firsts@), 0, ta as int, te as int) == f,
            None => first_containing(s@, ranges_view(firsts@), 0, ta as int, te as int) < 0,
        },
{
    let ghost fv = ranges_view(firsts@);
    let mut k: usize = 0;
    while k < firsts.len()
        invariant
            ta <= te <= s@.len(),
            fv == ranges_view(firsts@),
            ranges_within(fv, 0, s@.len() as int),
            0 <= k <= firsts@.len(),
            first_containing(s@, fv, k as int, ta as int, te as int) == first_containing(
                s@,
                fv,
                0,
                ta as int,
                te as int,
            ),
        decreases firsts@.len() - k,
    {
        let (fa, fb) = firsts[k];
        proof {
            assert(fv[k as int] == (fa as int, fb as int));
        }
        if range_occurs_in(s, ta, te, fa, fb) {
            return Some(k);
        }
        k = k + 1;
    }
    None
}

/// The exec state of the first pass stands for `p`.
pub open spec fn pass_is(
    p: Pass,
    labels: Map<Seq<char>, u16>,
    firsts: Seq<(usize, usize)>,
    instr: u16,
    di: u16,
    data: Map<u16, u16>,
    errors: Seq<AssemblerError>,
) -> bool {
    &&& p.labels == labels
    &&& p.firsts == ranges_view(firsts)
    &&& p.instr == instr
    &&& p.di == di
    &&& p.data == data
    &&& p.errors == errors_view(errors)
    &&& !p.panics
}

pub(crate) fn label_line(
    s: &Vec<char>,
    t: &Vec<usize>,
    ta: usize,
    te: usize,
    instr: u16,
    di: u16,
    data: &DataTable,
    labels: &mut LabelTable,
    firsts: &mut Vec<(usize, usize)>,
    errors: &mut Vec<AssemblerError>,
    Ghost(p): Ghost<Pass>,
) -> (ok: bool)
    requires
        source_wf(s@, t@),
        ta <= te <= s@.len(),
        old(labels).wf(),
        ranges_within(ranges_view(old(firsts)@), 0, s@.len() as int),
        pass_is(p, old(labels)@, old(firsts)@, instr, di, data@, old(errors)@),
    ensures
        final(labels).wf(),
        ranges_within(ranges_view(final(firsts)@), 0, s@.len() as int),
        ok == !label_step(s@, p, ta as int, te as int).panics,
        ok ==> pass_is(
            label_step(s@, p, ta as int, te as int),
            final(labels)@,
            final(firsts)@,
            instr,
            di,
            data@,
            final(errors)@,
        ),
{
    let key = remove_colons_in(s, ta, te);
    let prev = labels.insert(key, instr);
    match prev {
        None => {
            firsts.push((ta, te));
            proof {
                assert(ranges_view(firsts@) =~= ranges_view(old(firsts)@).push((ta as int, te as int)));
            }
            true
        },
        Some(_) => {
            match find_containing(s, firsts, ta, te) {
                Some(f) => {
                    let (fa, _) = firsts[f];
                    proof {
                        assert(ranges_view(firsts@)[f as int] == (fa as int, firsts@[f as int].1 as int));
                        lemma_byte_pos_mono(s@, 0, fa as int);
                        lemma_byte_pos_mono(s@, ta as int, te as int);
                        lemma_byte_pos_mono(s@, 0, ta as int);
                    }
                    let len = t[te] - t[ta];
                    errors.push(
                        AssemblerError::LabelDefinedMultipleTimes {
                            span: Span { offset: t[fa], len },
                            span1: Span { offset: t[ta], len },
                        },
                    );
                    proof {
                        assert(errors_view(errors@) =~= errors_view(old(errors)@).push(
                            label_step(s@, p, ta as int, te as int).errors.last(),
                        ));
                    }
                    true
                },
                None => false,
            }
        },
    }
}

/// The exec state of a data definition's operators stands for `o`.
pub open spec fn ops_is(
    o: Ops,
    k: usize,
    lonely: Option<(usize, usize)>,
    di: u16,
    reps: u16,
    errors: Seq<AssemblerError>,
) -> bool {
    &&& o.k == k
    &&& o.lonely == match lonely {
        Some(n) => Some((n.0 as int, n.1 as int)),
        None => None,
    }
    &&& o.di == di
    &&& o.reps == reps
    &&& o.errors == errors_view(errors)
    &&& !o.panics
}

fn parse_range(s: &Vec<char>, a: usize, b: usize) -> (r: Result<u16, IntErrorKind>)
    requires
        a <= b <= s@.len(),
        !leading_minus(s@.subrange(a as int, b as int)),
    ensures
        r == parsed_number(s@.subrange(a as int, b as int)),
{
    let text = string_of_range(s, a, b);
    parse_prefixed_u16(text.as_str())
}

fn lit_is(s: &Vec<char>, a: usize, b: usize, lit: &str) -> (r: bool)
    requires
        a <= b <= s@.len(),
    ensures
        r == (s@.subrange(a as int, b as int) == lit@),
{
    let l = chars_of(lit);
    range_is(s, a, b, &l)
}

/// Whether the token `s[a..b]` is among the texts known to read as numbers.
pub fn is_number_text(numbers: &Vec<Vec<char>>, s: &Vec<char>, a: usize, b: usize) -> (r: bool)
    requires
        a <= b <= s@.len(),
    ensures
        r == numbers_view(numbers@).contains(s@.subrange(a as int, b as int)),
{
    let ghost nv = numbers_view(numbers@);
    let mut i: usize = 0;
    while i < numbers.len()
        invariant
            a <= b <= s@.len(),
            nv == numbers_view(numbers@),
            0 <= i <= numbers@.len(),
            forall|j: int| 0 <= j < i ==> nv[j] != s@.subrange(a as int, b as int),
        decreases numbers@.len() - i,
    {
        if range_is(s, a, b, &numbers[i]) {
            proof {
                assert(nv[i as int] == numbers@[i as int]@);
            }
            return true;
        }
        proof {
            assert(nv[i as int] == numbers@[i as int]@);
        }
        i = i + 1;
    }
    false
}

pub open spec fn numbers_view(v: Seq<Vec<char>>) -> Seq<Seq<char>> {
    v.map_values(|w: Vec<char>| w@)
}

/// The tokens of a line are ranges of the source, in order.
pub open spec fn toks_ok(s: Seq<char>, toks: Seq<(int, int)>) -> bool {
    &&& ranges_within(toks, 0, s.len() as int)
    &&& toks.len() <= s.len()
    &&& forall|k: int| 0 <= k < toks.len() - 1 ==> #[trigger] toks[k].1 < toks[k + 1].0
}

proof fn lemma_toks_sorted(toks: Seq<(int, int)>, i: int, j: int)
    requires
        0 <= i <= j < toks.len(),
        forall|k: int| 0 <= k < toks.len() - 1 ==> #[trigger] toks[k].1 < toks[k + 1].0,
        forall|k: int| 0 <= k < toks.len() ==> #[trigger] toks[k].0 <= toks[k].1,
    ensures
        toks[i].0 <= toks[j].1,
    decreases j - i,
{
    if i < j {
        lemma_toks_sorted(toks, i, j - 1);
        assert(toks[j - 1].1 < toks[j].0);
    }
}

fn operand_exec(
    s: &Vec<char>,
    t: &Vec<usize>,
    toks: &Vec<(usize, usize)>,
    k: usize,
    errors: &mut Vec<AssemblerError>,
) -> (r: (u16, bool))
    requires
        source_wf(s@, t@),
        toks_ok(s@, ranges_view(toks@)),
    ensures
        r.1 == !operand(s@, ranges_view(toks@), k as int).2,
        r.1 ==> r.0 == operand(s@, ranges_view(toks@), k as int).0,
        r.1 ==> errors_view(final(errors)@) == errors_view(old(errors)@) + operand(
            s@,
            ranges_view(toks@),
            k as int,
        ).1,
{
    let ghost tv = ranges_view(toks@);
    if k >= toks.len() {
        proof {
            reveal_strlit("");
            assert(""@ =~= Seq::<char>::empty());
        }
        let r = parse_prefixed_u16("");
        proof {
            assert(errors_view(errors@) =~= errors_view(old(errors)@) + seq![]);
        }
        match r {
            Ok(v) => (v, true),
            Err(_) => (0, false),
        }
    } else {
        let (a, b) = toks[k];
        proof {
            assert(tv[k as int] == (a as int, b as int));
            lemma_byte_pos_mono(s@, a as int, b as int);
            lemma_byte_pos_mono(s@, 0, a as int);
        }
        if leading_minus_in(s, a, b) {
            return (0, false);
        }
        match parse_range(s, a, b) {
            Ok(v) => {
                proof {
                    assert(errors_view(errors@) =~= errors_view(old(errors)@) + seq![]);
                }
                (v, true)
            },
            Err(kind) => {
                let number = string_of_range(s, a, b);
                errors.push(
                    AssemblerError::FailedToParseNumber {
                        number,
                        parseerror: kind,
                        span: Span { offset: t[a], len: t[b] - t[a] },
                    },
                );
                proof {
                    assert(errors_view(errors@) =~= errors_view(old(errors)@) + operand(s@, tv, k as int).1);
                }
                (0, true)
            },
        }
    }
}

fn op_step_exec(
    s: &Vec<char>,
    t: &Vec<usize>,
    toks: &Vec<(usize, usize)>,
    numbers: &Vec<Vec<char>>,
    k: &mut usize,
    lonely: &mut Option<(usize, usize)>,
    di: &mut u16,
    reps: &mut u16,
    errors: &mut Vec<AssemblerError>,
    Ghost(o): Ghost<Ops>,
) -> (ok: bool)
    requires
        source_wf(s@, t@),
        toks_ok(s@, ranges_view(toks@)),
        *old(k) <= toks@.len() + 1,
        *old(lonely) matches Some(n) ==> n.0 <= n.1 <= s@.len(),
        ops_is(o, *old(k), *old(lonely), *old(di), *old(reps), old(errors)@),
    ensures
        *final(k) <= toks@.len() + 1,
        *final(lonely) matches Some(n) ==> n.0 <= n.1 <= s@.len(),
        ok == !op_step(s@, ranges_view(toks@), numbers_view(numbers@), o).panics,
        ok ==> ops_is(
            op_step(s@, ranges_view(toks@), numbers_view(numbers@), o),
            *final(k),
            *final(lonely),
            *final(di),
            *final(reps),
            final(errors)@,
        ),
{
    reveal(op_step);
    let ghost tv = ranges_view(toks@);
    proof {
        assert(tv.len() == toks@.len());
    }
    if *k >= toks.len() {
        return true;
    }
    let (a, b) = toks[*k];
    proof {
        assert(tv[*k as int] == (a as int, b as int));
        lemma_byte_pos_mono(s@, a as int, b as int);
        lemma_byte_pos_mono(s@, 0, a as int);
    }
    let is_at = lit_is(s, a, b, "at");
    let is_repeat = lit_is(s, a, b, "repeat");
    if is_at || is_repeat {
        if let Some((na, nb)) = *lonely {
            proof {
                lemma_byte_pos_mono(s@, na as int, nb as int);
                lemma_byte_pos_mono(s@, 0, na as int);
            }
            errors.push(
                AssemblerError::NumberInfrontOperation { span: Span { offset: t[na], len: t[nb] - t[na] } },
            );
        }
        let ghost mid = errors_view(errors@);
        proof {
            let e0 = match o.lonely {
                Some(n) => seq![ErrorView::NumberInfrontOperation { span: tok_span(s@, n) }],
                None => seq![],
            };
            assert(mid =~= o.errors + e0);
        }
        let (v, ok) = operand_exec(s, t, toks, *k + 1, errors);
        if !ok {
            return false;
        }
        if is_at {
            *di = v;
        } else {
            *reps = v;
        }
        *k = *k + 2;
        true
    } else if is_number_text(numbers, s, a, b) {
        *lonely = Some((a, b));
        *k = *k + 1;
        true
    } else {
        errors.push(AssemblerError::UnknownDataOperator { span: Span { offset: t[a], len: t[b] - t[a] } });
        *k = *k + 1;
        proof {
            assert(errors_view(errors@) =~= errors_view(old(errors)@).push(
                ErrorView::UnknownDataOperator { span: tok_span(s@, tv[o.k]) },
            ));
        }
        true
    }
}

fn dw_exec(
    s: &Vec<char>,
    t: &Vec<usize>,
    toks: &Vec<(usize, usize)>,
    k: usize,
    errors: &mut Vec<AssemblerError>,
) -> (r: (Vec<u16>, bool))
    requires
        source_wf(s@, t@),
        toks_ok(s@, ranges_view(toks@)),
        toks@.len() > 0,
    ensures
        r.1 == !dw_data(s@, ranges_view(toks@), k as int).2,
        r.1 ==> r.0@ == dw_data(s@, ranges_view(toks@), k as int).0,
        r.1 ==> errors_view(final(errors)@) == errors_view(old(errors)@) + dw_data(
            s@,
            ranges_view(toks@),
            k as int,
        ).1,
{
    let ghost tv = ranges_view(toks@);
    let ghost e0 = errors_view(errors@);
    proof {
        assert(tv.len() == toks@.len());
    }
    if k < toks.len() {
        let (a, b) = toks[k];
        proof {
            assert(tv[k as int] == (a as int, b as int));
            lemma_byte_pos_mono(s@, a as int, b as int);
            lemma_byte_pos_mono(s@, 0, a as int);
        }
        if leading_minus_in(s, a, b) {
            return (Vec::new(), false);
        }
        let v = match parse_range(s, a, b) {
            Ok(v) => v,
            Err(kind) => {
                let number = string_of_range(s, a, b);
                errors.push(
                    AssemblerError::FailedToParseNumber {
                        number,
                        parseerror: kind,
                        span: Span { offset: t[a], len: t[b] - t[a] },
                    },
                );
                1
            },
        };
        if v == 0 {
            errors.push(AssemblerError::UselessDataDefinition { span: Span { offset: t[a], len: t[b] - t[a] } });
        }
        proof {
            assert(errors_view(errors@) =~= e0 + dw_data(s@, tv, k as int).1);
        }
        let mut vals: Vec<u16> = Vec::new();
        vals.push(v);
        proof {
            assert(vals@ =~= seq![v]);
        }
        (vals, true)
    } else {
        let (_, b0) = toks[0];
        proof {
            assert(tv[0] == (toks@[0].0 as int, b0 as int));
            lemma_byte_pos_mono(s@, 0, b0 as int);
        }
        errors.push(AssemblerError::WrongArgumentAmount { expected_amount: 1, amount: 0, span: Span { offset: t[b0], len: 1 } });
        proof {
            reveal_strlit("1");
            assert(errors_view(errors@) =~= e0 + dw_data(s@, tv, k as int).1);
        }
        let r = parse_prefixed_u16("1");
        let mut vals: Vec<u16> = Vec::new();
        match r {
            Ok(v) => {
                if v == 0 {
                    return (vals, false);
                }
                vals.push(v);
            },
            Err(_) => {
                return (vals, false);
            },
        }
        proof {
            assert(vals@ =~= dw_data(s@, tv, k as int).0);
        }
        (vals, true)
    }
}

proof fn lemma_row_fold_len(s: Seq<char>, p: Seq<(int, int)>, j: int)
    ensures
        row_fold(s, p, j).0.len() == 2,
    decreases j,
{
    if j > 0 {
        lemma_row_fold_len(s, p, j - 1);
    }
}

#[verifier::rlimit(40)]
fn row_exec(
    s: &Vec<char>,
    t: &Vec<usize>,
    toks: &Vec<(usize, usize)>,
    k: usize,
    errors: &mut Vec<AssemblerError>,
) -> (r: (Vec<u16>, bool))
    requires
        source_wf(s@, t@),
        toks_ok(s@, ranges_view(toks@)),
        toks@.len() > 0,
        k <= toks@.len() + 1,
    ensures
        r.1 == !row_fold(s@, row_tokens(ranges_view(toks@), k as int), row_tokens(ranges_view(toks@), k as int).len() as int).2,
        r.1 ==> r.0@ == row_fold(s@, row_tokens(ranges_view(toks@), k as int), row_tokens(ranges_view(toks@), k as int).len() as int).0,
        r.1 ==> errors_view(final(errors)@) == errors_view(old(errors)@) + row_amount_errors(
            s@,
            ranges_view(toks@),
            k as int,
        ) + row_fold(s@, row_tokens(ranges_view(toks@), k as int), row_tokens(ranges_view(toks@), k as int).len() as int).1,
{
    let ghost tv = ranges_view(toks@);
    let ghost e0 = errors_view(errors@);
    let n = toks.len();
    let kk = if k < n { k } else { n };
    proof {
        assert(tv.len() == n);
    }
    let amount = n - kk;
    let (_, b0) = toks[0];
    proof {
        assert(tv[0] == (toks@[0].0 as int, b0 as int));
        lemma_byte_pos_mono(s@, 0, b0 as int);
    }
    if amount != 8 {
        let start = if amount >= 1 {
            let (a, _) = toks[kk];
            proof {
                assert(tv[kk as int] == (a as int, toks@[kk as int].1 as int));
                lemma_byte_pos_mono(s@, 0, a as int);
            }
            t[a]
        } else {
            t[b0] + 1
        };
        let len = if amount >= 2 {
            let (a, _) = toks[kk];
            let (_, b) = toks[n - 1];
            proof {
                assert(tv[kk as int] == (a as int, toks@[kk as int].1 as int));
                assert(tv[n - 1] == (toks@[n - 1].0 as int, b as int));
                assert(tv.subrange(kk as int, n as int).last() == tv[n - 1]);
                assert forall|q: int| 0 <= q < tv.len() implies #[trigger] tv[q].0 <= tv[q].1 by {}
                lemma_toks_sorted(tv, kk as int, n - 1);
                lemma_byte_pos_mono(s@, a as int, b as int);
                lemma_byte_pos_mono(s@, 0, a as int);
            }
            t[b] - t[a]
        } else {
            t[b0] + 1
        };
        errors.push(AssemblerError::WrongArgumentAmount { expected_amount: 8, amount, span: Span { offset: start, len } });
    }
    proof {
        assert(errors_view(errors@) =~= e0 + row_amount_errors(s@, tv, k as int));
    }
    let (p0, p1) = if amount == 8 {
        (kk, n)
    } else if amount >= 2 {
        (kk + 1, n - 1)
    } else {
        (kk, kk)
    };
    let ghost pp = row_tokens(tv, k as int);
    proof {
        assert(pp =~= tv.subrange(p0 as int, p1 as int));
    }
    let ghost e1 = errors_view(errors@);
    let mut out: Vec<u16> = Vec::new();
    out.push(0);
    out.push(0);
    let mut i: usize = 0;
    proof {
        assert(out@ =~= row_fold(s@, pp, 0).0);
        lemma_row_fold_len(s@, pp, pp.len() as int);
    }
    while i < p1 - p0
        invariant
            source_wf(s@, t@),
            toks_ok(s@, tv),
            tv == ranges_view(toks@),
            p0 <= p1 <= toks@.len(),
            pp == tv.subrange(p0 as int, p1 as int),
            pp == row_tokens(tv, k as int),
            0 <= i <= p1 - p0,
            !row_fold(s@, pp, i as int).2,
            out@ == row_fold(s@, pp, i as int).0,
            errors_view(errors@) == e1 + row_fold(s@, pp, i as int).1,
        decreases p1 - p0 - i,
    {
        proof {
            lemma_row_fold_len(s@, pp, i as int);
        }
        let (a, b) = toks[p0 + i];
        proof {
            assert(tv[p0 + i] == (a as int, b as int));
            assert(pp[i as int] == (a as int, b as int));
            lemma_byte_pos_mono(s@, a as int, b as int);
            lemma_byte_pos_mono(s@, 0, a as int);
        }
        if i >= 8 || leading_minus_in(s, a, b) {
            proof {
                assert(tok_text(s@, pp[i as int]) == s@.subrange(a as int, b as int));
                assert(row_fold(s@, pp, i + 1).2);
                lemma_row_fold_stays(s@, pp, i + 1, pp.len() as int);
            }
            return (out, false);
        }
        let ghost before = errors_view(errors@);
        let ghost text = s@.subrange(a as int, b as int);
        proof {
            assert(tok_text(s@, pp[i as int]) == text);
            assert(!leading_minus(text));
        }
        let value = match parse_range(s, a, b) {
            Ok(v) => v,
            Err(kind) => {
                let number = string_of_range(s, a, b);
                errors.push(
                    AssemblerError::FailedToParseNumber {
                        number,
                        parseerror: kind,
                        span: Span { offset: t[a], len: t[b] - t[a] },
                    },
                );
                1
            },
        };
        let ghost pe = match parsed_number(text) {
            Ok(v) => (v, Seq::<ErrorView>::empty()),
            Err(kind) => (
                1u16,
                seq![
                    ErrorView::FailedToParseNumber {
                        number: text,
                        parseerror: kind,
                        span: tok_span(s@, pp[i as int]),
                    },
                ],
            ),
        };
        proof {
            assert(value == pe.0);
            assert(errors_view(errors@) =~= before + pe.1);
        }
        if value > 15 {
            errors.push(
                AssemblerError::PaletteIndexOutOfBounds { number: value, span: Span { offset: t[a], len: t[b] - t[a] } },
            );
        }
        let sh: u16 = ((3 - (i % 4)) * 4) as u16;
        let w = out[i / 4] | (value << sh);
        out.set(i / 4, w);
        proof {
            let e2 = if value > 15 {
                seq![ErrorView::PaletteIndexOutOfBounds { number: value, span: tok_span(s@, pp[i as int]) }]
            } else {
                Seq::<ErrorView>::empty()
            };
            assert(row_fold(s@, pp, i + 1).1 == row_fold(s@, pp, i as int).1 + pe.1 + e2);
            assert(errors_view(errors@) =~= before + pe.1 + e2);
            assert(errors_view(errors@) =~= e1 + row_fold(s@, pp, i + 1).1);
            assert(out@ =~= row_fold(s@, pp, i + 1).0);
        }
        i = i + 1;
    }
    proof {
        assert(errors_view(errors@) =~= e0 + row_amount_errors(s@, tv, k as int) + row_fold(
            s@,
            pp,
            pp.len() as int,
        ).1);
    }
    (out, true)
}

proof fn lemma_row_fold_stays(s: Seq<char>, p: Seq<(int, int)>, i: int, n: int)
    requires
        0 <= i <= n,
        row_fold(s, p, i).2,
    ensures
        row_fold(s, p, n).2,
    decreases n - i,
{
    if i < n {
        lemma_row_fold_stays(s, p, i, n - 1);
    }
}


fn write_exec(data: &mut DataTable, d: u16, vals: &Vec<u16>, n: usize)
    requires
        vals@.len() > 0,
        d + n <= 65535,
    ensures
        final(data)@ == write_data(old(data)@, d as int, vals@, n as int),
{
    let mut w: usize = 0;
    proof {
        assert(data@ =~= write_data(old(data)@, d as int, vals@, 0));
    }
    while w < n
        invariant
            vals@.len() > 0,
            d + n <= 65535,
            0 <= w <= n,
            data@ == write_data(old(data)@, d as int, vals@, w as int),
        decreases n - w,
    {
        let v = vals[w % vals.len()];
        data.set((d as usize + w) as u16, v);
        proof {
            assert(data@ =~= write_data(old(data)@, d as int, vals@, w + 1));
        }
        w = w + 1;
    }
}

/// The operators and the data of a data definition: the data, and the data
/// position and repetitions that the operators leave; `None` where the
/// definition does not finish.
fn directive_parts(
    s: &Vec<char>,
    t: &Vec<usize>,
    numbers: &Vec<Vec<char>>,
    ta: usize,
    te: usize,
    d0: u16,
    errors: &mut Vec<AssemblerError>,
    Ghost(p): Ghost<Pass>,
) -> (r: Option<(Vec<u16>, u16, u16)>)
    requires
        source_wf(s@, t@),
        ta < te <= s@.len(),
        s@[ta as int] == '.',
        p.di == d0,
        p.errors == errors_view(old(errors)@),
        !p.panics,
    ensures
        ({
            let toks = tokens(s@, ta as int, te as int, true);
            let nv = numbers_view(numbers@);
            let o = op_step(s@, toks, nv, op_step(s@, toks, nv, start_ops(p)));
            let dd = directive_data(s@, toks, o.k);
            &&& (r is None <==> (o.panics || dd.2))
            &&& (r matches Some(v) ==> {
                &&& v.0@ == dd.0
                &&& v.1 == o.di
                &&& v.2 == o.reps
                &&& errors_view(final(errors)@) == o.errors + dd.1
                &&& v.0@.len() <= 2
                &&& v.0@.len() > 0
            })
        }),
{
    let ghost nv = numbers_view(numbers@);
    let toks = token_ranges(s, ta, te, true);
    let ghost tv = ranges_view(toks@);
    proof {
        lemma_first_token(s@, ta as int, te as int, true);
        assert(tv.len() == toks@.len());
        assert forall|q: int| 0 <= q < tv.len() implies 0 <= #[trigger] tv[q].0 <= tv[q].1 <= s@.len() by {
            assert(ta <= tv[q].0);
        }
        assert(toks_ok(s@, tv));
    }
    let mut k: usize = 1;
    let mut lonely: Option<(usize, usize)> = None;
    let mut d: u16 = d0;
    let mut reps: u16 = 1;
    let ghost o0 = start_ops(p);
    let ghost o1 = op_step(s@, tv, nv, o0);
    let ghost o2 = op_step(s@, tv, nv, o1);
    let ok1 = op_step_exec(s, t, &toks, numbers, &mut k, &mut lonely, &mut d, &mut reps, errors, Ghost(o0));
    if !ok1 {
        proof {
            reveal(op_step);
        }
        return None;
    }
    let ok2 = op_step_exec(s, t, &toks, numbers, &mut k, &mut lonely, &mut d, &mut reps, errors, Ghost(o1));
    if !ok2 {
        return None;
    }
    let (a0, b0) = toks[0];
    proof {
        assert(tv[0] == (a0 as int, b0 as int));
    }
    let ghost dd = directive_data(s@, tv, k as int);
    let is_dw = lit_is(s, a0, b0, ".dw");
    let is_row = lit_is(s, a0, b0, ".dsprrow");
    proof {
        reveal(directive_data);
    }
    if !is_dw && !is_row {
        return None;
    }
    let (vals, ok) = if is_dw {
        dw_exec(s, t, &toks, k, errors)
    } else {
        row_exec(s, t, &toks, k, errors)
    };
    if !ok {
        return None;
    }
    proof {
        assert(errors_view(errors@) =~= o2.errors + dd.1);
        let rt = row_tokens(tv, k as int);
        lemma_row_fold_len(s@, rt, rt.len() as int);
    }
    Some((vals, d, reps))
}

pub(crate) fn directive_line(
    s: &Vec<char>,
    t: &Vec<usize>,
    numbers: &Vec<Vec<char>>,
    ta: usize,
    te: usize,
    di: &mut u16,
    data: &mut DataTable,
    errors: &mut Vec<AssemblerError>,
    Ghost(p): Ghost<Pass>,
) -> (ok: bool)
    requires
        source_wf(s@, t@),
        ta < te <= s@.len(),
        s@[ta as int] == '.',
        p.di == *old(di),
        p.data == old(data)@,
        p.errors == errors_view(old(errors)@),
        !p.panics,
    ensures
        ok == !directive_step(s@, numbers_view(numbers@), p, ta as int, te as int).panics,
        ok ==> directive_step(s@, numbers_view(numbers@), p, ta as int, te as int).di == *final(di),
        ok ==> directive_step(s@, numbers_view(numbers@), p, ta as int, te as int).data == final(data)@,
        ok ==> directive_step(s@, numbers_view(numbers@), p, ta as int, te as int).errors == errors_view(
            final(errors)@,
        ),
{
    let ghost q = directive_step(s@, numbers_view(numbers@), p, ta as int, te as int);
    let parts = directive_parts(s, t, numbers, ta, te, *di, errors, Ghost(p));
    let (vals, d, reps) = match parts {
        Some(v) => v,
        None => {
            proof {
                reveal(directive_step);
            }
            return false;
        },
    };
    proof {
        lemma_byte_pos_mono(s@, ta as int, te as int);
        lemma_byte_pos_mono(s@, 0, ta as int);
    }
    let len = vals.len();
    let n: usize = if len == 1 {
        reps as usize
    } else {
        2 * (reps as usize)
    };
    proof {
        reveal(directive_step);
        if len == 1 {
            assert(n == reps * len) by (nonlinear_arith)
                requires
                    len == 1,
                    n == reps,
            ;
        } else {
            assert(len == 2);
            assert(n == reps * len) by (nonlinear_arith)
                requires
                    len == 2,
                    n == 2 * reps,
            ;
        }
    }
    let end: usize = d as usize + n;
    if end > 65535 {
        errors.push(
            AssemblerError::DataInitializedBeyondRAMBounds {
                address: end,
                span: Span { offset: t[ta], len: t[te] - t[ta] },
            },
        );
        *di = d;
        proof {
            assert(errors_view(errors@) =~= q.errors);
        }
        true
    } else {
        write_exec(data, d, &vals, n);
        *di = end as u16;
        true
    }
}

} // verus!
