//! The assembler: two passes over the source, the first gathering labels and
//! data definitions, the second encoding each instruction into three words.
use vstd::prelude::*;
use crate::argument::{argument_panics, is_ascii_char};
use crate::asm_error::{errors_view, AssemblerError, ErrorView};
use crate::data_table::{data_words, DataTable};
use crate::instruction::{assemble_instruction, instruction_panics, source_wf, spec_instruction};
use crate::labels::LabelTable;
use crate::numbers::{leading_minus, leading_minus_in};
use crate::prepass::{label_line, directive_line, label_step, lemma_panics_stay, numbers_view, pass_is, passes, prepass_line, remove_colons, Pass};
use crate::text::{
    byte_table, chars_of, is_white_space, decimal, find_char, first_of, has_char, lemma_find_char, lemma_first_token,
    line_ranges, lines, push_chars, push_decimal, push_str, ranges_view, ranges_within, string_of,
    token_ranges, tokens, trim, trim_range,
};

verus! {

/// The state the first pass starts from: the labels known so far and nothing
/// else.
pub open spec fn start_pass(labels: Map<Seq<char>, u16>) -> Pass {
    Pass {
        labels,
        firsts: seq![],
        instr: 0,
        di: 0,
        data: Map::empty(),
        errors: seq![],
        panics: false,
    }
}

/// The first pass over every line of `s`.
pub open spec fn first_pass(s: Seq<char>, numbers: Seq<Seq<char>>, labels: Map<Seq<char>, u16>) -> Pass {
    passes(s, numbers, lines(s), lines(s).len() as int, start_pass(labels))
}

/// The instruction text of the line `l`: from its first character that is not
/// white space to its comment, or to its last character that is not white
/// space.
pub open spec fn code_range(s: Seq<char>, l: (int, int)) -> (int, int) {
    let tr = trim(s, l.0, l.1);
    (tr.0, find_char(s, tr.0, tr.1, ';'))
}

/// The second pass after the first `n` lines: the words so far, the errors
/// so far, and whether a line was met on which encoding does not finish.
pub open spec fn code_pass(s: Seq<char>, labels: Map<Seq<char>, u16>, ls: Seq<(int, int)>, n: int) -> (
    Seq<u16>,
    Seq<ErrorView>,
    bool,
)
    decreases n,
{
    if n <= 0 {
        (seq![], seq![], false)
    } else {
        let prev = code_pass(s, labels, ls, n - 1);
        let (a, c) = code_range(s, ls[n - 1]);
        if prev.2 || a == c {
            prev
        } else if instruction_panics(s, a, c) {
            (prev.0, prev.1, true)
        } else {
            let r = spec_instruction(s, a, c, labels);
            let w = match r.0 {
                Some(w) => w,
                None => seq![],
            };
            (prev.0 + w, prev.1 + r.1, false)
        }
    }
}

/// How many of the first `n` lines encode into words in the second pass.
pub open spec fn encoded_lines(s: Seq<char>, labels: Map<Seq<char>, u16>, ls: Seq<(int, int)>, n: int) -> int
    decreases n,
{
    if n <= 0 {
        0
    } else {
        let (a, c) = code_range(s, ls[n - 1]);
        encoded_lines(s, labels, ls, n - 1) + if a != c && spec_instruction(s, a, c, labels).0 is Some {
            1int
        } else {
            0
        }
    }
}

/// Every line that encodes gives three words: the instruction word and the
/// two argument words.
pub proof fn lemma_three_words_per_line(s: Seq<char>, labels: Map<Seq<char>, u16>, ls: Seq<(int, int)>, n: int)
    requires
        0 <= n,
        !code_pass(s, labels, ls, n).2,
    ensures
        code_pass(s, labels, ls, n).0.len() == 3 * encoded_lines(s, labels, ls, n),
    decreases n,
{
    if n > 0 {
        let prev = code_pass(s, labels, ls, n - 1);
        if prev.2 {
            lemma_code_pass_stays(s, labels, ls, n - 1, n);
        }
        lemma_three_words_per_line(s, labels, ls, n - 1);
    }
}

/// One line per error: its code, `: ` and its title.
pub open spec fn error_lines(errs: Seq<ErrorView>) -> Seq<char>
    decreases errs.len(),
{
    if errs.len() == 0 {
        seq![]
    } else {
        error_lines(errs.drop_last()) + errs.last().code() + ": "@ + errs.last().title() + "\n"@
    }
}

/// The message of a failed assembly: the error lines, then a line that
/// names the source and counts the errors.
pub open spec fn report(errs: Seq<ErrorView>, name: Seq<char>) -> Seq<char> {
    error_lines(errs) + "Could not assemble "@ + name + " due to "@ + decimal(errs.len()) + " error(s)"@
}

/// The errors of both passes, first pass first.
pub open spec fn all_errors(s: Seq<char>, numbers: Seq<Seq<char>>, labels: Map<Seq<char>, u16>) -> Seq<ErrorView> {
    let p = first_pass(s, numbers, labels);
    let ls = lines(s);
    p.errors + code_pass(s, p.labels, ls, ls.len() as int).1
}

/// What assembling `s` gives: `None` where a pass does not finish; else the
/// words of the instructions, in source order, when no error was found, and
/// the report of every error (first pass, then second) when one was.
pub open spec fn assembled(
    s: Seq<char>,
    numbers: Seq<Seq<char>>,
    labels: Map<Seq<char>, u16>,
    name: Seq<char>,
) -> Option<Result<Seq<u16>, Seq<char>>> {
    let p = first_pass(s, numbers, labels);
    let ls = lines(s);
    let q = code_pass(s, p.labels, ls, ls.len() as int);
    if p.panics || q.2 {
        None
    } else if p.errors + q.1 == Seq::<ErrorView>::empty() {
        Some(Ok(q.0))
    } else {
        Some(Err(report(p.errors + q.1, name)))
    }
}

/// A source of one line that holds no `;`, `:` or `.`: one instruction line,
/// or white space.
pub open spec fn plain_line(s: Seq<char>) -> bool {
    forall|i: int|
        0 <= i < s.len() ==> #[trigger] s[i] != '\n' && s[i] != ';' && s[i] != ':' && s[i] != '.'
}

/// The words of such a source: its trimmed text split at white space and
/// commas.
pub open spec fn line_words(s: Seq<char>) -> Seq<Seq<char>> {
    let tr = trim(s, 0, s.len() as int);
    crate::instruction::word_texts(s, tr.0, tr.1)
}

proof fn lemma_one_line(s: Seq<char>, i: int)
    requires
        plain_line(s),
        0 <= i <= s.len(),
        s.len() > 0,
    ensures
        crate::text::line_scan(s, i, 0) == seq![(0int, s.len() as int)],
    decreases s.len() - i,
{
    if i < s.len() {
        lemma_one_line(s, i + 1);
    }
}

proof fn lemma_plain_line_passes(s: Seq<char>, numbers: Seq<Seq<char>>, labels: Map<Seq<char>, u16>)
    requires
        plain_line(s),
        line_words(s).len() > 0,
    ensures
        ({
            let tr = trim(s, 0, s.len() as int);
            let p = first_pass(s, numbers, labels);
            &&& 0 <= tr.0 < tr.1 <= s.len()
            &&& lines(s) == seq![(0int, s.len() as int)]
            &&& !p.panics
            &&& p.labels == labels
            &&& p.errors == Seq::<ErrorView>::empty()
            &&& code_range(s, lines(s)[0]) == tr
            &&& !has_char(s, tr.0, tr.1, ':')
            &&& !has_char(s, tr.0, tr.1, '.')
        }),
{
    let n = s.len() as int;
    crate::text::lemma_trim(s, 0, n);
    let tr = trim(s, 0, n);
    crate::text::lemma_tokens_wf(s, tr.0, tr.1, true);
    let t = tokens(s, tr.0, tr.1, true);
    assert(t.len() > 0);
    assert(t[0].0 < t[0].1);
    assert(tr.0 < tr.1);
    lemma_one_line(s, 0);
    lemma_find_char(s, 0, n, ';');
    lemma_find_char(s, tr.0, tr.1, ';');
    lemma_find_char(s, tr.0, tr.1, ':');
    lemma_find_char(s, tr.0, tr.1, '.');
    if find_char(s, 0, n, ';') < n {
        assert(s[find_char(s, 0, n, ';')] == ';');
    }
    if find_char(s, tr.0, tr.1, ';') < tr.1 {
        assert(s[find_char(s, tr.0, tr.1, ';')] == ';');
    }
    if find_char(s, tr.0, tr.1, ':') < tr.1 {
        assert(s[find_char(s, tr.0, tr.1, ':')] == ':');
    }
    if find_char(s, tr.0, tr.1, '.') < tr.1 {
        assert(s[find_char(s, tr.0, tr.1, '.')] == '.');
    }
    assert(s[tr.1 - 1] != ':');
    assert(s[tr.0] != '.');
    let ls = lines(s);
    assert(passes(s, numbers, ls, 0, start_pass(labels)) == start_pass(labels));
}

/// Commas and white space separate the arguments alike: two one-line sources
/// of one instruction (no line break, `;`, `:` or `.`) whose texts split at
/// white space and commas into the same words, and that both or neither
/// begin and both or neither end with a comma, assemble alike: one finishes
/// exactly when the other does, one succeeds exactly when the other does,
/// and then both give the same words.
pub proof fn lemma_separators_alike(
    s1: Seq<char>,
    s2: Seq<char>,
    numbers: Seq<Seq<char>>,
    labels: Map<Seq<char>, u16>,
    name: Seq<char>,
)
    requires
        plain_line(s1),
        plain_line(s2),
        line_words(s1) == line_words(s2),
        line_words(s1).len() > 0,
        crate::instruction::leading_comma(s1, trim(s1, 0, s1.len() as int).0, trim(s1, 0, s1.len() as int).1)
            == crate::instruction::leading_comma(s2, trim(s2, 0, s2.len() as int).0, trim(s2, 0, s2.len() as int).1),
        crate::instruction::trailing_comma(s1, trim(s1, 0, s1.len() as int).0, trim(s1, 0, s1.len() as int).1)
            == crate::instruction::trailing_comma(s2, trim(s2, 0, s2.len() as int).0, trim(s2, 0, s2.len() as int).1),
    ensures
        assembled(s1, numbers, labels, name) is Some <==> assembled(s2, numbers, labels, name) is Some,
        (assembled(s1, numbers, labels, name) is Some && assembled(s1, numbers, labels, name)->Some_0 is Ok)
            <==> (assembled(s2, numbers, labels, name) is Some && assembled(
            s2,
            numbers,
            labels,
            name,
        )->Some_0 is Ok),
        assembled(s1, numbers, labels, name) is Some && assembled(s1, numbers, labels, name)->Some_0 is Ok
            ==> assembled(s1, numbers, labels, name) == assembled(s2, numbers, labels, name),
{
    lemma_plain_line_passes(s1, numbers, labels);
    lemma_plain_line_passes(s2, numbers, labels);
    let tr1 = trim(s1, 0, s1.len() as int);
    let tr2 = trim(s2, 0, s2.len() as int);
    crate::instruction::lemma_same_words_same_errors(s1, tr1.0, tr1.1, s2, tr2.0, tr2.1, labels);
    let t1 = tokens(s1, tr1.0, tr1.1, true);
    let t2 = tokens(s2, tr2.0, tr2.1, true);
    crate::text::lemma_tokens_wf(s1, tr1.0, tr1.1, true);
    crate::text::lemma_tokens_wf(s2, tr2.0, tr2.1, true);
    let w = line_words(s1);
    assert forall|k: int| 0 <= k < t1.len() implies #[trigger] s1.subrange(t1[k].0, t1[k].1) == s2.subrange(
        t2[k].0,
        t2[k].1,
    ) by {
        assert(w[k] == s1.subrange(t1[k].0, t1[k].1));
        assert(line_words(s2)[k] == s2.subrange(t2[k].0, t2[k].1));
    }
    assert(instruction_panics(s1, tr1.0, tr1.1) == instruction_panics(s2, tr2.0, tr2.1));
    let ls1 = lines(s1);
    let ls2 = lines(s2);
    assert(code_pass(s1, labels, ls1, 0) == code_pass(s2, labels, ls2, 0));
    let q1 = code_pass(s1, labels, ls1, 1);
    let q2 = code_pass(s2, labels, ls2, 1);
    if !instruction_panics(s1, tr1.0, tr1.1) {
        let r1 = spec_instruction(s1, tr1.0, tr1.1, labels);
        let r2 = spec_instruction(s2, tr2.0, tr2.1, labels);
        assert(q1.1 =~= r1.1);
        assert(q2.1 =~= r2.1);
        assert(q1.0 =~= r1.0->Some_0);
        assert(q2.0 =~= r2.0->Some_0);
        assert(Seq::<ErrorView>::empty() + q1.1 =~= q1.1);
        assert(Seq::<ErrorView>::empty() + q2.1 =~= q2.1);
    }
}

/// The text of line `l` that the first pass reads: before any `;`, trimmed.
pub open spec fn line_text(s: Seq<char>, l: (int, int)) -> (int, int) {
    trim(s, l.0, find_char(s, l.0, l.1, ';'))
}

/// The label that line `l` defines, if it is a label line (one that ends
/// with `:`): its text without colons.
pub open spec fn label_of(s: Seq<char>, l: (int, int)) -> Option<Seq<char>> {
    let tr = line_text(s, l);
    if tr.0 != tr.1 && s[tr.1 - 1] == ':' {
        Some(remove_colons(s.subrange(tr.0, tr.1)))
    } else {
        None
    }
}

/// Whether line `l` holds an instruction: it is not empty, not a label and
/// not a data definition.
pub open spec fn is_instruction_line(s: Seq<char>, l: (int, int)) -> bool {
    let tr = line_text(s, l);
    tr.0 != tr.1 && s[tr.1 - 1] != ':' && s[tr.0] != '.'
}

/// How many of the first `n` lines hold instructions.
pub open spec fn instructions_before(s: Seq<char>, ls: Seq<(int, int)>, n: int) -> int
    decreases n,
{
    if n <= 0 {
        0
    } else {
        instructions_before(s, ls, n - 1) + if is_instruction_line(s, ls[n - 1]) {
            1int
        } else {
            0
        }
    }
}

proof fn lemma_no_panic_before(s: Seq<char>, nv: Seq<Seq<char>>, ls: Seq<(int, int)>, n: int, p0: Pass)
    requires
        0 <= n,
        !passes(s, nv, ls, n, p0).panics,
    ensures
        forall|m: int| 0 <= m <= n ==> !#[trigger] passes(s, nv, ls, m, p0).panics,
{
    assert forall|m: int| 0 <= m <= n implies !#[trigger] passes(s, nv, ls, m, p0).panics by {
        if passes(s, nv, ls, m, p0).panics {
            lemma_panics_stay(s, nv, ls, m, n, p0);
        }
    }
}

proof fn lemma_pass_instr(s: Seq<char>, nv: Seq<Seq<char>>, ls: Seq<(int, int)>, n: int, p0: Pass)
    requires
        0 <= n,
        !passes(s, nv, ls, n, p0).panics,
    ensures
        passes(s, nv, ls, n, p0).instr == p0.instr + instructions_before(s, ls, n),
    decreases n,
{
    if n > 0 {
        let p = passes(s, nv, ls, n - 1, p0);
        assert(!p.panics);
        lemma_pass_instr(s, nv, ls, n - 1, p0);
        reveal(crate::prepass::directive_step);
    }
}

proof fn lemma_label_kept(
    s: Seq<char>,
    nv: Seq<Seq<char>>,
    ls: Seq<(int, int)>,
    i: int,
    n: int,
    p0: Pass,
    k: Seq<char>,
)
    requires
        0 <= i < n <= ls.len(),
        label_of(s, ls[i]) == Some(k),
        forall|j: int| i < j < n ==> label_of(s, ls[j]) != Some(k),
        !passes(s, nv, ls, n, p0).panics,
    ensures
        passes(s, nv, ls, n, p0).labels.contains_key(k),
        passes(s, nv, ls, n, p0).labels[k] == passes(s, nv, ls, i, p0).instr as u16,
    decreases n - i,
{
    lemma_no_panic_before(s, nv, ls, n, p0);
    if n == i + 1 {
        assert(!passes(s, nv, ls, i, p0).panics);
    } else {
        lemma_label_kept(s, nv, ls, i, n - 1, p0, k);
        assert(!passes(s, nv, ls, n - 1, p0).panics);
        reveal(crate::prepass::directive_step);
    }
}

/// A label stands for the position of the instruction that follows its last
/// definition: the number of instruction lines above that definition.
pub proof fn lemma_label_position(
    s: Seq<char>,
    numbers: Seq<Seq<char>>,
    labels: Map<Seq<char>, u16>,
    i: int,
)
    requires
        0 <= i < lines(s).len(),
        label_of(s, lines(s)[i]) is Some,
        forall|j: int|
            i < j < lines(s).len() ==> label_of(s, lines(s)[j]) != label_of(s, lines(s)[i]),
        !first_pass(s, numbers, labels).panics,
    ensures
        first_pass(s, numbers, labels).labels.contains_key(label_of(s, lines(s)[i])->0),
        first_pass(s, numbers, labels).labels[label_of(s, lines(s)[i])->0] == instructions_before(
            s,
            lines(s),
            i,
        ) as u16,
{
    let ls = lines(s);
    let p0 = start_pass(labels);
    let k = label_of(s, ls[i])->0;
    lemma_label_kept(s, numbers, ls, i, ls.len() as int, p0, k);
    lemma_no_panic_before(s, numbers, ls, ls.len() as int, p0);
    lemma_pass_instr(s, numbers, ls, i, p0);
}

/// The texts of the tokens of a data definition on the line `l`, if it is one.
pub open spec fn line_data_tokens(s: Seq<char>, l: (int, int)) -> Seq<Seq<char>> {
    let c = find_char(s, l.0, l.1, ';');
    let tr = trim(s, l.0, c);
    if tr.0 < tr.1 && s[tr.1 - 1] != ':' && s[tr.0] == '.' {
        tokens(s, tr.0, tr.1, true).map_values(|r: (int, int)| s.subrange(r.0, r.1))
    } else {
        seq![]
    }
}

/// The texts of the tokens of the data definitions on the first `n` lines.
pub open spec fn data_tokens_upto(s: Seq<char>, ls: Seq<(int, int)>, n: int) -> Seq<Seq<char>>
    decreases n,
{
    if n <= 0 {
        seq![]
    } else {
        data_tokens_upto(s, ls, n - 1) + line_data_tokens(s, ls[n - 1])
    }
}

/// Whether the text `s[a..b]` is one on which reading an argument does not
/// finish; see `argument_panics`.
fn argument_panics_in(s: &Vec<char>, a: usize, b: usize) -> (r: bool)
    requires
        a <= b <= s@.len(),
    ensures
        r == argument_panics(s@.subrange(a as int, b as int)),
{
    let ghost t = s@.subrange(a as int, b as int);
    if a == b {
        return true;
    }
    let c0 = s[a];
    if !((c0 as u32) < 0x80) {
        return true;
    }
    if c0 == '$' && b - a >= 2 && !((s[a + 1] as u32) < 0x80) {
        return true;
    }
    if c0 == '#' && b - a >= 2 {
        proof {
            assert(t.drop_first() =~= s@.subrange(a + 1, b as int));
        }
        if leading_minus_in(s, a + 1, b) {
            return true;
        }
    }
    if c0 == '$' && b - a >= 3 && s[a + 1] == '#' {
        proof {
            assert(t.subrange(2, t.len() as int) =~= s@.subrange(a + 2, b as int));
        }
        if leading_minus_in(s, a + 2, b) {
            return true;
        }
    }
    proof {
        if b - a >= 2 {
            assert(t.drop_first() =~= s@.subrange(a + 1, b as int));
        }
        if b - a >= 3 {
            assert(t.subrange(2, t.len() as int) =~= s@.subrange(a + 2, b as int));
        }
    }
    false
}

/// Whether encoding the instruction text `s[a..c]` does not finish; see
/// `instruction_panics`.
fn instruction_panics_in(s: &Vec<char>, a: usize, c: usize) -> (r: bool)
    requires
        a < c <= s@.len(),
        !is_white_space(s@[a as int]),
    ensures
        r == instruction_panics(s@, a as int, c as int),
{
    proof {
        lemma_find_char(s@, a as int, c as int, ':');
        lemma_find_char(s@, a as int, c as int, '.');
    }
    if first_of(s, a, c, ':') < c {
        if s[c - 1] == ':' {
            return false;
        }
        let lt = token_ranges(s, a, c, false);
        proof {
            lemma_first_token(s@, a as int, c as int, false);
            assert(ranges_view(lt@)[0] == (lt@[0].0 as int, lt@[0].1 as int));
        }
        let (_, le) = lt[0];
        return le == c;
    }
    if first_of(s, a, c, '.') < c {
        return false;
    }
    let toks = token_ranges(s, a, c, true);
    let ghost tv = ranges_view(toks@);
    proof {
        assert(tv.len() == toks@.len());
    }
    if toks.len() == 0 {
        return true;
    }
    if toks.len() > 1 {
        let (x, y) = toks[1];
        proof {
            assert(tv[1] == (x as int, y as int));
            assert(a <= tv[1].0);
        }
        if argument_panics_in(s, x, y) {
            return true;
        }
    }
    if toks.len() > 2 {
        let (x, y) = toks[2];
        proof {
            assert(tv[2] == (x as int, y as int));
            assert(a <= tv[2].0);
        }
        if argument_panics_in(s, x, y) {
            return true;
        }
    }
    false
}

proof fn lemma_code_pass_stays(s: Seq<char>, labels: Map<Seq<char>, u16>, ls: Seq<(int, int)>, i: int, n: int)
    requires
        0 <= i <= n,
        code_pass(s, labels, ls, i).2,
    ensures
        code_pass(s, labels, ls, n).2,
    decreases n - i,
{
    if i < n {
        lemma_code_pass_stays(s, labels, ls, i, n - 1);
    }
}

/// Runs the first pass over every line; `false` where it does not finish.
fn run_first_pass(
    s: &Vec<char>,
    t: &Vec<usize>,
    numbers: &Vec<Vec<char>>,
    ls: &Vec<(usize, usize)>,
    labels: &mut LabelTable,
    data: &mut DataTable,
    errors: &mut Vec<AssemblerError>,
) -> (ok: bool)
    requires
        source_wf(s@, t@),
        ranges_view(ls@) == lines(s@),
        ranges_within(lines(s@), 0, s@.len() as int),
        old(labels).wf(),
        old(data)@ == Map::<u16, u16>::empty(),
        old(errors)@.len() == 0,
    ensures
        final(labels).wf(),
        ok == !first_pass(s@, numbers_view(numbers@), old(labels)@).panics,
        ok ==> final(labels)@ == first_pass(s@, numbers_view(numbers@), old(labels)@).labels,
        ok ==> final(data)@ == first_pass(s@, numbers_view(numbers@), old(labels)@).data,
        ok ==> errors_view(final(errors)@) == first_pass(s@, numbers_view(numbers@), old(labels)@).errors,
{
    let ghost nv = numbers_view(numbers@);
    let ghost lv = lines(s@);
    let ghost p0 = start_pass(old(labels)@);
    let ghost fp = first_pass(s@, nv, old(labels)@);
    let mut firsts: Vec<(usize, usize)> = Vec::new();
    let mut instr: u16 = 0;
    let mut di: u16 = 0;
    let mut i: usize = 0;
    proof {
        assert(errors_view(errors@) =~= Seq::<ErrorView>::empty());
        assert(ranges_view(firsts@) =~= Seq::<(int, int)>::empty());
        assert(lv.len() == ls@.len());
    }
    while i < ls.len()
        invariant
            source_wf(s@, t@),
            ranges_view(ls@) == lv,
            lv == lines(s@),
            ranges_within(lv, 0, s@.len() as int),
            lv.len() == ls@.len(),
            0 <= i <= ls@.len(),
            labels.wf(),
            ranges_within(ranges_view(firsts@), 0, s@.len() as int),
            pass_is(passes(s@, nv, lv, i as int, p0), labels@, firsts@, instr, di, data@, errors@),
            nv == numbers_view(numbers@),
            p0 == start_pass(old(labels)@),
            fp == first_pass(s@, nv, old(labels)@),
        decreases ls@.len() - i,
    {
        let ghost p = passes(s@, nv, lv, i as int, p0);
        let (la, lb) = ls[i];
        proof {
            assert(lv[i as int] == (la as int, lb as int));
            lemma_find_char(s@, la as int, lb as int, ';');
        }
        let c = first_of(s, la, lb, ';');
        let (ta, te) = trim_range(s, la, c);
        proof {
            crate::text::lemma_trim(s@, la as int, c as int);
            assert(passes(s@, nv, lv, i + 1, p0) == prepass_line(s@, nv, p, lv[i as int]));
        }
        if ta == te {
        } else if s[te - 1] == ':' {
            let ok = label_line(s, t, ta, te, instr, di, data, labels, &mut firsts, errors, Ghost(p));
            if !ok {
                proof {
                    lemma_panics_stay(s@, nv, lv, i + 1, lv.len() as int, p0);
                }
                return false;
            }
        } else if s[ta] == '.' {
            let ok = directive_line(s, t, numbers, ta, te, &mut di, data, errors, Ghost(p));
            proof {
                reveal(crate::prepass::directive_step);
            }
            if !ok {
                proof {
                    lemma_panics_stay(s@, nv, lv, i + 1, lv.len() as int, p0);
                }
                return false;
            }
        } else if instr >= 65535 {
            proof {
                lemma_panics_stay(s@, nv, lv, i + 1, lv.len() as int, p0);
            }
            return false;
        } else {
            instr = instr + 1;
        }
        i = i + 1;
    }
    true
}

/// Runs the second pass over every line; `None` where it does not finish.
fn run_code_pass(
    s: &Vec<char>,
    t: &Vec<usize>,
    labels: &LabelTable,
    ls: &Vec<(usize, usize)>,
    errors: &mut Vec<AssemblerError>,
) -> (r: Option<Vec<u16>>)
    requires
        source_wf(s@, t@),
        labels.wf(),
        ranges_view(ls@) == lines(s@),
        ranges_within(lines(s@), 0, s@.len() as int),
    ensures
        r is None <==> code_pass(s@, labels@, lines(s@), lines(s@).len() as int).2,
        r matches Some(w) ==> w@ == code_pass(s@, labels@, lines(s@), lines(s@).len() as int).0,
        r matches Some(w) ==> errors_view(final(errors)@) == errors_view(old(errors)@) + code_pass(
            s@,
            labels@,
            lines(s@),
            lines(s@).len() as int,
        ).1,
{
    let ghost lv = lines(s@);
    let ghost e0 = errors_view(errors@);
    let mut words: Vec<u16> = Vec::new();
    let mut i: usize = 0;
    proof {
        assert(lv.len() == ls@.len());
        assert(errors_view(errors@) =~= e0 + Seq::<ErrorView>::empty());
    }
    while i < ls.len()
        invariant
            source_wf(s@, t@),
            labels.wf(),
            ranges_view(ls@) == lv,
            lv == lines(s@),
            ranges_within(lv, 0, s@.len() as int),
            lv.len() == ls@.len(),
            0 <= i <= ls@.len(),
            !code_pass(s@, labels@, lv, i as int).2,
            words@ == code_pass(s@, labels@, lv, i as int).0,
            errors_view(errors@) == e0 + code_pass(s@, labels@, lv, i as int).1,
        decreases ls@.len() - i,
    {
        let (la, lb) = ls[i];
        proof {
            assert(lv[i as int] == (la as int, lb as int));
        }
        let (ta, te) = trim_range(s, la, lb);
        proof {
            crate::text::lemma_trim(s@, la as int, lb as int);
            lemma_find_char(s@, ta as int, te as int, ';');
        }
        let c = first_of(s, ta, te, ';');
        if ta < c {
            if instruction_panics_in(s, ta, c) {
                proof {
                    lemma_code_pass_stays(s@, labels@, lv, i + 1, lv.len() as int);
                }
                return None;
            }
            let ghost before = errors_view(errors@);
            let r = assemble_instruction(s, t, ta, c, labels, errors);
            if let Some(w) = r {
                words.push(w[0]);
                words.push(w[1]);
                words.push(w[2]);
                proof {
                    assert(words@ =~= code_pass(s@, labels@, lv, i as int).0 + w@);
                }
            }
            proof {
                assert(errors_view(errors@) =~= e0 + code_pass(s@, labels@, lv, i + 1).1);
            }
        }
        i = i + 1;
    }
    Some(words)
}

/// The report of `errors` for the source called `name`; see `report`.
fn report_text(errors: &Vec<AssemblerError>, name: &Vec<char>) -> (r: String)
    ensures
        r@ == report(errors_view(errors@), name@),
{
    let ghost ev = errors_view(errors@);
    let mut out: Vec<char> = Vec::new();
    let mut i: usize = 0;
    proof {
        assert(ev.subrange(0, 0) =~= Seq::<ErrorView>::empty());
    }
    while i < errors.len()
        invariant
            ev == errors_view(errors@),
            0 <= i <= errors@.len(),
            out@ == error_lines(ev.subrange(0, i as int)),
        decreases errors@.len() - i,
    {
        push_str(&mut out, errors[i].code());
        push_str(&mut out, ": ");
        push_str(&mut out, errors[i].title());
        push_str(&mut out, "\n");
        proof {
            assert(ev.subrange(0, i + 1).drop_last() =~= ev.subrange(0, i as int));
            assert(ev.subrange(0, i + 1).last() == errors@[i as int]@);
        }
        i = i + 1;
    }
    proof {
        assert(ev.subrange(0, errors@.len() as int) =~= ev);
    }
    push_str(&mut out, "Could not assemble ");
    push_chars(&mut out, name);
    push_str(&mut out, " due to ");
    push_decimal(&mut out, errors.len() as u64);
    push_str(&mut out, " error(s)");
    string_of(out.as_slice())
}

/// The texts of the tokens of every data definition in `source`, in order:
/// the tokens among which a data definition may meet a number where an
/// operator stands.
pub fn data_tokens(source: &str) -> (r: Vec<String>)
    ensures
        r@.map_values(|t: String| t@) == data_tokens_upto(source@, lines(source@), lines(source@).len() as int),
{
    let s = chars_of(source);
    let ls = line_ranges(&s);
    let ghost lv = lines(s@);
    let mut r: Vec<String> = Vec::new();
    let mut i: usize = 0;
    proof {
        assert(lv.len() == ls@.len());
        assert(r@.map_values(|t: String| t@) =~= Seq::<Seq<char>>::empty());
    }
    while i < ls.len()
        invariant
            s@ == source@,
            ranges_view(ls@) == lv,
            lv == lines(s@),
            ranges_within(lv, 0, s@.len() as int),
            lv.len() == ls@.len(),
            0 <= i <= ls@.len(),
            r@.map_values(|t: String| t@) == data_tokens_upto(s@, lv, i as int),
        decreases ls@.len() - i,
    {
        let (la, lb) = ls[i];
        proof {
            assert(lv[i as int] == (la as int, lb as int));
            lemma_find_char(s@, la as int, lb as int, ';');
        }
        let c = first_of(&s, la, lb, ';');
        let (ta, te) = trim_range(&s, la, c);
        let ghost before = r@.map_values(|t: String| t@);
        if ta < te && s[te - 1] != ':' && s[ta] == '.' {
            let toks = token_ranges(&s, ta, te, true);
            let ghost tv = ranges_view(toks@);
            let ghost want = tv.map_values(|q: (int, int)| s@.subrange(q.0, q.1));
            let mut k: usize = 0;
            proof {
                assert(tv.len() == toks@.len());
                assert(r@.map_values(|t: String| t@) =~= before + want.subrange(0, 0));
            }
            while k < toks.len()
                invariant
                    ta <= te <= s@.len(),
                    tv == ranges_view(toks@),
                    tv == tokens(s@, ta as int, te as int, true),
                    tv.len() == toks@.len(),
                    crate::text::tokens_wf(s@, tv, ta as int, te as int, true),
                    want == tv.map_values(|q: (int, int)| s@.subrange(q.0, q.1)),
                    0 <= k <= toks@.len(),
                    r@.map_values(|t: String| t@) == before + want.subrange(0, k as int),
                decreases toks@.len() - k,
            {
                let (x, y) = toks[k];
                proof {
                    assert(tv[k as int] == (x as int, y as int));
                    assert(ta <= tv[k as int].0);
                }
                let piece = crate::text::string_of_range(&s, x, y);
                let ghost prev = r@;
                r.push(piece);
                k = k + 1;
                proof {
                    assert(want[k - 1] == s@.subrange(x as int, y as int));
                    assert(r@.map_values(|t: String| t@) =~= prev.map_values(|t: String| t@).push(piece@));
                    assert(before + want.subrange(0, k as int) =~= (before + want.subrange(0, k - 1)).push(want[k - 1]));
                }
            }
            proof {
                assert(want.subrange(0, want.len() as int) =~= want);
            }
        }
        proof {
            assert(data_tokens_upto(s@, lv, i + 1) == before + line_data_tokens(s@, lv[i as int]));
            if !(ta < te && s@[te - 1] != ':' && s@[ta as int] == '.') {
                assert(r@.map_values(|t: String| t@) =~= before + Seq::<Seq<char>>::empty());
            }
        }
        i = i + 1;
    }
    r
}

/// An assembler for one source text.
pub struct Assembler {
    source: Vec<char>,
    bytes: Vec<usize>,
    source_name: Vec<char>,
    numbers: Vec<Vec<char>>,
    labels: LabelTable,
    data: DataTable,
    errors: Vec<AssemblerError>,
}

impl Assembler {
    pub closed spec fn wf(&self) -> bool {
        &&& source_wf(self.source@, self.bytes@)
        &&& self.labels.wf()
    }

    /// The source text.
    pub closed spec fn source_text(&self) -> Seq<char> {
        self.source@
    }

    /// The name the source goes by in reports.
    pub closed spec fn name(&self) -> Seq<char> {
        self.source_name@
    }

    /// The tokens of the source that read as numbers.
    pub closed spec fn number_texts(&self) -> Seq<Seq<char>> {
        numbers_view(self.numbers@)
    }

    /// The labels known, and the position each stands for.
    pub closed spec fn known_labels(&self) -> Map<Seq<char>, u16> {
        self.labels@
    }

    /// The memory contents that the data definitions set.
    pub closed spec fn data_map(&self) -> Map<u16, u16> {
        self.data@
    }

    /// The errors found by the last assembly.
    pub closed spec fn found_errors(&self) -> Seq<ErrorView> {
        errors_view(self.errors@)
    }

    /// What the next call of `assemble` gives; see `assembled`.
    pub open spec fn outcome(&self) -> Option<Result<Seq<u16>, Seq<char>>> {
        assembled(self.source_text(), self.number_texts(), self.known_labels(), self.name())
    }

    /// An assembler for `source`, which goes by the name `source_name`;
    /// `numbers` are the tokens of the source that read as numbers (a data
    /// definition takes such a token, where an operator stands, for a
    /// misplaced number).
    pub fn with_numbers(source: &str, source_name: &str, numbers: Vec<String>) -> (r: Assembler)
        requires
            4 * source@.len() + 8 <= usize::MAX,
        ensures
            r.wf(),
            r.source_text() == source@,
            r.name() == source_name@,
            r.number_texts() == numbers@.map_values(|n: String| n@),
            r.known_labels() == Map::<Seq<char>, u16>::empty(),
            r.data_map() == Map::<u16, u16>::empty(),
            r.found_errors() == Seq::<ErrorView>::empty(),
    {
        let chars = chars_of(source);
        let bytes = byte_table(&chars);
        let mut nums: Vec<Vec<char>> = Vec::new();
        let mut i: usize = 0;
        while i < numbers.len()
            invariant
                0 <= i <= numbers@.len(),
                nums@.len() == i,
                forall|j: int| 0 <= j < i ==> #[trigger] nums@[j]@ == numbers@[j]@,
            decreases numbers@.len() - i,
        {
            nums.push(chars_of(numbers[i].as_str()));
            i = i + 1;
        }
        let r = Assembler {
            source: chars,
            bytes,
            source_name: chars_of(source_name),
            numbers: nums,
            labels: LabelTable::new(),
            data: DataTable::new(),
            errors: Vec::new(),
        };
        proof {
            assert(numbers_view(r.numbers@) =~= numbers@.map_values(|n: String| n@));
            assert(r.found_errors() =~= Seq::<ErrorView>::empty());
        }
        r
    }

    /// An assembler for `source`, which goes by the name `input` in reports
    /// and has no tokens that read as numbers.
    pub fn new(source: &str) -> (r: Assembler)
        requires
            4 * source@.len() + 8 <= usize::MAX,
        ensures
            r.wf(),
            r.source_text() == source@,
            r.name() == "input"@,
            r.number_texts() == Seq::<Seq<char>>::empty(),
            r.known_labels() == Map::<Seq<char>, u16>::empty(),
            r.data_map() == Map::<u16, u16>::empty(),
            r.found_errors() == Seq::<ErrorView>::empty(),
    {
        let r = Self::with_numbers(source, "input", Vec::new());
        proof {
            assert(r.number_texts() =~= Seq::<Seq<char>>::empty());
        }
        r
    }

    /// Runs both passes; `None` where one does not finish.
    fn run(&mut self) -> (r: Option<Result<Vec<u16>, String>>)
        requires
            old(self).wf(),
        ensures
            final(self).wf(),
            final(self).source_text() == old(self).source_text(),
            final(self).name() == old(self).name(),
            final(self).number_texts() == old(self).number_texts(),
            match r {
                None => old(self).outcome() is None,
                Some(Ok(w)) => old(self).outcome() == Some(Ok::<Seq<u16>, Seq<char>>(w@)),
                Some(Err(m)) => old(self).outcome() == Some(Err::<Seq<u16>, Seq<char>>(m@)),
            },
            r is Some ==> final(self).known_labels() == first_pass(
                old(self).source_text(),
                old(self).number_texts(),
                old(self).known_labels(),
            ).labels,
            r is Some ==> final(self).data_map() == first_pass(
                old(self).source_text(),
                old(self).number_texts(),
                old(self).known_labels(),
            ).data,
            r is Some ==> final(self).found_errors() == all_errors(
                old(self).source_text(),
                old(self).number_texts(),
                old(self).known_labels(),
            ),
    {
        let ls = line_ranges(&self.source);
        let mut errors: Vec<AssemblerError> = Vec::new();
        self.data = DataTable::new();
        let ok = run_first_pass(
            &self.source,
            &self.bytes,
            &self.numbers,
            &ls,
            &mut self.labels,
            &mut self.data,
            &mut errors,
        );
        if !ok {
            return None;
        }
        let words = match run_code_pass(&self.source, &self.bytes, &self.labels, &ls, &mut errors) {
            Some(w) => w,
            None => {
                return None;
            },
        };
        if errors.len() == 0 {
            proof {
                assert(errors_view(errors@) =~= Seq::<ErrorView>::empty());
            }
            self.errors = errors;
            Some(Ok(words))
        } else {
            proof {
                assert(errors_view(errors@).len() > 0);
            }
            let message = report_text(&errors, &self.source_name);
            self.errors = errors;
            Some(Err(message))
        }
    }

    /// Assembles the source into the words of its instructions, three per
    /// instruction in source order, or the report of the errors found. The
    /// labels defined stay known, and the data definitions' contents can be
    /// read with `data_section`.
    pub fn assemble(&mut self) -> (r: Result<Vec<u16>, String>)
        requires
            old(self).wf(),
            old(self).outcome() is Some,
        ensures
            final(self).wf(),
            final(self).source_text() == old(self).source_text(),
            final(self).name() == old(self).name(),
            final(self).number_texts() == old(self).number_texts(),
            match r {
                Ok(w) => old(self).outcome() == Some(Ok::<Seq<u16>, Seq<char>>(w@)),
                Err(m) => old(self).outcome() == Some(Err::<Seq<u16>, Seq<char>>(m@)),
            },
            final(self).known_labels() == first_pass(
                old(self).source_text(),
                old(self).number_texts(),
                old(self).known_labels(),
            ).labels,
            final(self).data_map() == first_pass(
                old(self).source_text(),
                old(self).number_texts(),
                old(self).known_labels(),
            ).data,
            final(self).found_errors() == all_errors(
                old(self).source_text(),
                old(self).number_texts(),
                old(self).known_labels(),
            ),
    {
        match self.run() {
            Some(r) => r,
            None => {
                proof {
                    assert(false);
                }
                Err(String::new())
            },
        }
    }

    /// Whether `assemble` finishes on this assembler.
    pub fn finishes(&self) -> (b: bool)
        requires
            self.wf(),
        ensures
            b == self.outcome() is Some,
    {
        let mut probe = Assembler {
            source: copy_all(&self.source),
            bytes: copy_all_usize(&self.bytes),
            source_name: copy_all(&self.source_name),
            numbers: copy_numbers(&self.numbers),
            labels: self.labels.copy(),
            data: DataTable::new(),
            errors: Vec::new(),
        };
        let r = probe.run();
        r.is_some()
    }

    /// Assembles the source where that finishes, and else returns `None`;
    /// see `assemble`.
    pub fn try_assemble(&mut self) -> (r: Option<Result<Vec<u16>, String>>)
        requires
            old(self).wf(),
        ensures
            final(self).wf(),
            match r {
                None => old(self).outcome() is None && *final(self) == *old(self),
                Some(Ok(w)) => old(self).outcome() == Some(Ok::<Seq<u16>, Seq<char>>(w@)),
                Some(Err(m)) => old(self).outcome() == Some(Err::<Seq<u16>, Seq<char>>(m@)),
            },
            r is Some ==> final(self).known_labels() == first_pass(
                old(self).source_text(),
                old(self).number_texts(),
                old(self).known_labels(),
            ).labels,
            r is Some ==> final(self).data_map() == first_pass(
                old(self).source_text(),
                old(self).number_texts(),
                old(self).known_labels(),
            ).data,
            r is Some ==> final(self).found_errors() == all_errors(
                old(self).source_text(),
                old(self).number_texts(),
                old(self).known_labels(),
            ),
    {
        if self.finishes() {
            Some(self.assemble())
        } else {
            None
        }
    }

    /// The errors the last assembly found, in the order found.
    pub fn errors(&self) -> (r: &Vec<AssemblerError>)
        ensures
            errors_view(r@) == self.found_errors(),
    {
        &self.errors
    }

    /// The source text.
    pub fn source(&self) -> (r: String)
        ensures
            r@ == self.source_text(),
    {
        string_of(self.source.as_slice())
    }

    /// The data section: how many addresses the data definitions set, then
    /// each address and its value, by increasing address.
    pub fn data_section(&self) -> (w: Vec<u16>)
        requires
            self.wf(),
        ensures
            w@ == data_words(self.data_map()),
    {
        self.data.words()
    }
}

fn copy_all(v: &Vec<char>) -> (r: Vec<char>)
    ensures
        r@ == v@,
{
    let r = crate::text::copy_range(v, 0, v.len());
    proof {
        assert(r@ =~= v@);
    }
    r
}

fn copy_all_usize(v: &Vec<usize>) -> (r: Vec<usize>)
    ensures
        r@ == v@,
{
    let mut r: Vec<usize> = Vec::new();
    let mut i: usize = 0;
    while i < v.len()
        invariant
            0 <= i <= v@.len(),
            r@ == v@.subrange(0, i as int),
        decreases v@.len() - i,
    {
        r.push(v[i]);
        i = i + 1;
        proof {
            assert(r@ =~= v@.subrange(0, i as int));
        }
    }
    proof {
        assert(r@ =~= v@);
    }
    r
}

fn copy_numbers(v: &Vec<Vec<char>>) -> (r: Vec<Vec<char>>)
    ensures
        numbers_view(r@) == numbers_view(v@),
{
    let mut r: Vec<Vec<char>> = Vec::new();
    let mut i: usize = 0;
    while i < v.len()
        invariant
            0 <= i <= v@.len(),
            r@.len() == i,
            forall|j: int| 0 <= j < i ==> #[trigger] r@[j]@ == v@[j]@,
        decreases v@.len() - i,
    {
        r.push(copy_all(&v[i]));
        i = i + 1;
    }
    proof {
        assert(numbers_view(r@) =~= numbers_view(v@));
    }
    r
}

} // verus!
