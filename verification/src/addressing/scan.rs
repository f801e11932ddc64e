//! The tokenizer: from the characters of a command line to address tokens.

use crate::addressing::chars::{
    alphabetic, is_alphabetic, is_digit, is_separator, is_symbol, is_whitespace, white_space,
};
use crate::addressing::decimal::{all_digits, decimal_value};
use crate::addressing::input::EditorInput;
use crate::addressing::token::{classify, AddressError, AddressErrorView, Value};
use vstd::prelude::*;

verus! {

/// What a scan of a command line yields.
pub ghost struct Scan {
    /// The runs of characters that were cut out, in order, each to be read as
    /// one token.
    pub runs: Seq<Seq<char>>,
    /// The index of the character at which the scan stopped: the first one
    /// that is no part of the address expression, or the line's length.
    pub stop: int,
}

/// The run that holds the digits collected so far, if there are any.
pub open spec fn flushed(pending: Seq<char>) -> Seq<Seq<char>> {
    if pending.len() == 0 {
        seq![]
    } else {
        seq![pending]
    }
}

/// The run that stands before a separator: the digits collected so far, or,
/// where no address was written since the last separator, the empty run.
pub open spec fn flushed_term(pending: Seq<char>, addressed: bool) -> Seq<Seq<char>> {
    if pending.len() == 0 && !addressed {
        seq![Seq::<char>::empty()]
    } else {
        flushed(pending)
    }
}

/// `rest` with the runs `head` in front of its runs.
pub open spec fn after_runs(head: Seq<Seq<char>>, rest: Scan) -> Scan {
    Scan { runs: head + rest.runs, stop: rest.stop }
}

/// Scans `text` from the index `pos` on, with the digits `pending` collected
/// and not yet cut out; `addressed` says whether an address was written since
/// the last separator.
///
/// Digits are collected. A separator cuts out what stands before it, which is
/// the empty run where no address was written, and then is a run of its own.
/// A symbolic address cuts out the digits collected, and then is a run of
/// its own. White space is passed over, also between two digits of a number.
/// Every other character stops the scan and stays unread: before an
/// alphabetic one the digits collected are cut out, before any other they are
/// dropped. The end of the line cuts out the digits collected.
pub open spec fn scan(text: Seq<char>, pos: int, pending: Seq<char>, addressed: bool) -> Scan
    decreases text.len() - pos,
{
    if pos < 0 || pos >= text.len() {
        Scan { runs: flushed(pending), stop: pos }
    } else {
        let c = text[pos];
        if is_digit(c) {
            scan(text, pos + 1, pending.push(c), addressed)
        } else if is_separator(c) {
            after_runs(
                flushed_term(pending, addressed).push(seq![c]),
                scan(text, pos + 1, Seq::empty(), false),
            )
        } else if is_symbol(c) {
            after_runs(flushed(pending).push(seq![c]), scan(text, pos + 1, Seq::empty(), true))
        } else if white_space(c) {
            scan(text, pos + 1, pending, addressed)
        } else if alphabetic(c) {
            Scan { runs: flushed(pending), stop: pos }
        } else {
            Scan { runs: Seq::empty(), stop: pos }
        }
    }
}

/// The runs of the address expression that starts at the index `pos` of
/// `text`. An expression that is absent altogether is one empty run.
pub open spec fn address_runs(text: Seq<char>, pos: int) -> Seq<Seq<char>> {
    let runs = scan(text, pos, Seq::empty(), false).runs;
    if runs.len() == 0 {
        seq![Seq::<char>::empty()]
    } else {
        runs
    }
}

/// The index of the first character of `text`, from `pos` on, that is no
/// part of the address expression.
pub open spec fn address_end(text: Seq<char>, pos: int) -> int {
    scan(text, pos, Seq::empty(), false).stop
}

/// The tokens that the runs `runs` stand for, or the error of the first run
/// that is no token.
pub open spec fn classify_runs(runs: Seq<Seq<char>>) -> Result<Seq<Value>, AddressErrorView>
    decreases runs.len(),
{
    if runs.len() == 0 {
        Ok(Seq::empty())
    } else {
        match classify_runs(runs.drop_last()) {
            Err(error) => Err(error),
            Ok(tokens) => match classify(runs.last()) {
                Ok(token) => Ok(tokens.push(token)),
                Err(error) => Err(error),
            },
        }
    }
}

/// The tokens of the address expression that starts at the index `pos` of
/// `text`.
pub open spec fn tokenize(text: Seq<char>, pos: int) -> Result<Seq<Value>, AddressErrorView> {
    classify_runs(address_runs(text, pos))
}

/// What a token sequence or an error is in contracts.
pub open spec fn tokens_view(outcome: Result<Vec<Value>, AddressError>) -> Result<
    Seq<Value>,
    AddressErrorView,
> {
    match outcome {
        Ok(tokens) => Ok(tokens@),
        Err(error) => Err(error@),
    }
}

/// The texts of `runs` as sequences of characters.
pub open spec fn run_texts(runs: Seq<String>) -> Seq<Seq<char>> {
    runs.map_values(|run: String| run@)
}

/// The scan never goes back, and never past the end of the line.
pub proof fn lemma_scan_stop(text: Seq<char>, pos: int, pending: Seq<char>, addressed: bool)
    requires
        0 <= pos <= text.len(),
    ensures
        pos <= scan(text, pos, pending, addressed).stop <= text.len(),
    decreases text.len() - pos,
{
    if pos < text.len() {
        let c = text[pos];
        if is_digit(c) {
            lemma_scan_stop(text, pos + 1, pending.push(c), addressed);
        } else if is_separator(c) {
            lemma_scan_stop(text, pos + 1, Seq::empty(), false);
        } else if is_symbol(c) {
            lemma_scan_stop(text, pos + 1, Seq::empty(), true);
        } else if white_space(c) {
            lemma_scan_stop(text, pos + 1, pending, addressed);
        }
    }
}

/// Whether `c` can stand in an address expression: a digit, a separator, a
/// symbolic address or white space.
pub open spec fn is_address_char(c: char) -> bool {
    is_digit(c) || is_separator(c) || is_symbol(c) || white_space(c)
}

/// The scan reads every character that can stand in an address expression
/// and stops at the first one that cannot.
pub proof fn lemma_scan_reads_expression(
    text: Seq<char>,
    pos: int,
    pending: Seq<char>,
    addressed: bool,
)
    requires
        0 <= pos <= text.len(),
    ensures
        forall|i: int|
            pos <= i < scan(text, pos, pending, addressed).stop ==> is_address_char(
                #[trigger] text[i],
            ),
        scan(text, pos, pending, addressed).stop < text.len() ==> !is_address_char(
            text[scan(text, pos, pending, addressed).stop],
        ),
    decreases text.len() - pos,
{
    if pos < text.len() {
        let c = text[pos];
        if is_digit(c) {
            lemma_scan_reads_expression(text, pos + 1, pending.push(c), addressed);
        } else if is_separator(c) {
            lemma_scan_reads_expression(text, pos + 1, Seq::empty(), false);
        } else if is_symbol(c) {
            lemma_scan_reads_expression(text, pos + 1, Seq::empty(), true);
        } else if white_space(c) {
            lemma_scan_reads_expression(text, pos + 1, pending, addressed);
        }
    }
}

/// Whether `run` has one of the shapes that the scan cuts out: no character
/// at all, digits only, or a single separator or symbolic address.
pub open spec fn is_cut(run: Seq<char>) -> bool {
    ||| run.len() == 0
    ||| all_digits(run)
    ||| run.len() == 1 && (is_separator(run[0]) || is_symbol(run[0]))
}

/// Every run that the scan cuts out has one of the shapes of [`is_cut`].
pub proof fn lemma_scan_cuts(text: Seq<char>, pos: int, pending: Seq<char>, addressed: bool)
    requires
        all_digits(pending),
    ensures
        forall|i: int|
            0 <= i < scan(text, pos, pending, addressed).runs.len() ==> is_cut(
                #[trigger] scan(text, pos, pending, addressed).runs[i],
            ),
    decreases text.len() - pos,
{
    let runs = scan(text, pos, pending, addressed).runs;
    if 0 <= pos < text.len() {
        let c = text[pos];
        if is_digit(c) {
            let longer = pending.push(c);
            assert forall|i: int| 0 <= i < longer.len() implies is_digit(#[trigger] longer[i]) by {
                if i < pending.len() {
                    assert(longer[i] == pending[i]);
                }
            }
            lemma_scan_cuts(text, pos + 1, longer, addressed);
            assert(runs == scan(text, pos + 1, longer, addressed).runs);
        } else if is_separator(c) || is_symbol(c) {
            let head = if is_separator(c) {
                flushed_term(pending, addressed).push(seq![c])
            } else {
                flushed(pending).push(seq![c])
            };
            let rest = scan(text, pos + 1, Seq::empty(), !is_separator(c));
            lemma_scan_cuts(text, pos + 1, Seq::empty(), !is_separator(c));
            assert(runs == head + rest.runs);
            assert(seq![c][0] == c);
            assert forall|i: int| 0 <= i < runs.len() implies is_cut(#[trigger] runs[i]) by {
                if i < head.len() {
                    assert(runs[i] == head[i]);
                    if i == head.len() - 1 {
                        assert(head[i] == seq![c]);
                    } else if pending.len() > 0 {
                        assert(head[i] == pending);
                    } else {
                        assert(head[i] == Seq::<char>::empty());
                    }
                } else {
                    assert(runs[i] == rest.runs[i - head.len()]);
                }
            }
        } else if white_space(c) {
            lemma_scan_cuts(text, pos + 1, pending, addressed);
            assert(runs == scan(text, pos + 1, pending, addressed).runs);
        } else if alphabetic(c) {
            assert forall|i: int| 0 <= i < runs.len() implies is_cut(#[trigger] runs[i]) by {
                assert(runs[i] == pending);
            }
        }
    } else {
        assert forall|i: int| 0 <= i < runs.len() implies is_cut(#[trigger] runs[i]) by {
            assert(runs[i] == pending);
        }
    }
}

/// Runs of the shapes that the scan cuts out are refused for one reason
/// only: a number that does not fit in a `usize`.
pub proof fn lemma_cuts_refused(runs: Seq<Seq<char>>)
    requires
        forall|i: int| 0 <= i < runs.len() ==> is_cut(#[trigger] runs[i]),
    ensures
        classify_runs(runs) matches Err(error) ==> {
            &&& error matches AddressErrorView::WeirdInput(run)
            &&& all_digits(run)
            &&& decimal_value(run) > usize::MAX
        },
    decreases runs.len(),
{
    if runs.len() > 0 {
        let front = runs.drop_last();
        assert forall|i: int| 0 <= i < front.len() implies is_cut(#[trigger] front[i]) by {
            assert(front[i] == runs[i]);
        }
        lemma_cuts_refused(front);
        assert(is_cut(runs[runs.len() - 1]));
    }
}

/// An address expression is refused by the tokenizer for one reason only: a
/// number in it does not fit in a `usize`. The error holds the digits of the
/// first such number.
pub proof fn lemma_refused_for_size_only(text: Seq<char>, pos: int)
    ensures
        tokenize(text, pos) matches Err(error) ==> {
            &&& error matches AddressErrorView::WeirdInput(run)
            &&& all_digits(run)
            &&& decimal_value(run) > usize::MAX
        },
{
    lemma_scan_cuts(text, pos, Seq::empty(), false);
    let runs = address_runs(text, pos);
    assert forall|i: int| 0 <= i < runs.len() implies is_cut(#[trigger] runs[i]) by {}
    lemma_cuts_refused(runs);
}

/// Digits in a row are collected one after the other.
pub proof fn lemma_scan_digits(
    text: Seq<char>,
    pos: int,
    count: int,
    pending: Seq<char>,
    addressed: bool,
)
    requires
        0 <= pos,
        0 <= count,
        pos + count <= text.len(),
        forall|i: int| pos <= i < pos + count ==> is_digit(#[trigger] text[i]),
    ensures
        scan(text, pos, pending, addressed) == scan(
            text,
            pos + count,
            pending + text.subrange(pos, pos + count),
            addressed,
        ),
    decreases count,
{
    if count == 0 {
        assert(pending + text.subrange(pos, pos) == pending);
    } else {
        assert(is_digit(text[pos]));
        lemma_scan_digits(text, pos + 1, count - 1, pending.push(text[pos]), addressed);
        assert(pending.push(text[pos]) + text.subrange(pos + 1, pos + count) == pending
            + text.subrange(pos, pos + count));
    }
}

/// The tokens of runs with one more run behind them.
pub proof fn lemma_classify_push(runs: Seq<Seq<char>>, run: Seq<char>)
    ensures
        classify_runs(runs.push(run)) == match classify_runs(runs) {
            Err(error) => Err(error),
            Ok(tokens) => match classify(run) {
                Ok(token) => Ok(tokens.push(token)),
                Err(error) => Err(error),
            },
        },
{
    assert(runs.push(run).drop_last() == runs);
}

/// Once a run is no token, no later run changes the error.
proof fn lemma_first_failure(runs: Seq<Seq<char>>, at: int)
    requires
        0 <= at < runs.len(),
        classify_runs(runs.take(at)) is Ok,
        classify(runs[at]) is Err,
    ensures
        classify_runs(runs) == Err::<Seq<Value>, AddressErrorView>(classify(runs[at])->Err_0),
    decreases runs.len() - at,
{
    if at == runs.len() - 1 {
        assert(runs.drop_last() == runs.take(at));
    } else {
        let front = runs.drop_last();
        assert(front.take(at) == runs.take(at));
        lemma_first_failure(front, at);
    }
}

/// Cuts `run` out as the next run, and leaves it empty.
fn cut(runs: &mut Vec<String>, run: &mut String)
    ensures
        run_texts(final(runs)@) == run_texts(old(runs)@).push(old(run)@),
        final(run)@ == Seq::<char>::empty(),
{
    let mut taken = String::new();
    core::mem::swap(run, &mut taken);
    runs.push(taken);
    assert(run_texts(runs@) =~= run_texts(old(runs)@).push(old(run)@));
}

/// Cuts the mark `c` out as a run of its own.
fn cut_mark(runs: &mut Vec<String>, c: char)
    ensures
        run_texts(final(runs)@) == run_texts(old(runs)@).push(seq![c]),
{
    let mut mark = String::new();
    mark.push(c);
    assert(mark@ == seq![c]);
    runs.push(mark);
    assert(run_texts(runs@) =~= run_texts(old(runs)@).push(seq![c]));
}

/// Scans the address expression at the cursor into its runs.
fn scan_runs(input: &mut EditorInput) -> (runs: Vec<String>)
    ensures
        final(input).characters() == old(input).characters(),
        final(input).position() == address_end(
            old(input).characters(),
            old(input).position() as int,
        ),
        run_texts(runs@) == address_runs(old(input).characters(), old(input).position() as int),
{
    let ghost text = input.characters();
    let ghost start = input.position() as int;
    let ghost whole = scan(text, start, Seq::empty(), false);
    let mut runs: Vec<String> = Vec::new();
    let mut pending = String::new();
    let mut addressed = false;
    let mut open = true;
    proof {
        use_type_invariant(&*input);
        assert(run_texts(runs@) + whole.runs == whole.runs);
    }
    while open
        invariant
            input.characters() == text,
            input.position() <= text.len(),
            open ==> whole == after_runs(
                run_texts(runs@),
                scan(text, input.position() as int, pending@, addressed),
            ),
            !open ==> whole == (Scan { runs: run_texts(runs@), stop: input.position() as int }),
        decreases text.len() - input.position() + if open { 1int } else { 0int },
    {
        let ghost pos = input.position() as int;
        let ghost before = run_texts(runs@);
        let ghost here = scan(text, pos, pending@, addressed);
        match input.peek() {
            None => {
                if !pending.as_str().is_empty() {
                    cut(&mut runs, &mut pending);
                }
                assert(run_texts(runs@) == before + here.runs);
                open = false;
            },
            Some(current) => {
                let c = *current;
                if is_digit(c) {
                    pending.push(c);
                    input.pop();
                } else if is_separator(c) {
                    let ghost head = flushed_term(pending@, addressed).push(seq![c]);
                    if !pending.as_str().is_empty() {
                        cut(&mut runs, &mut pending);
                    } else if !addressed {
                        let mut left_out = String::new();
                        cut(&mut runs, &mut left_out);
                    }
                    cut_mark(&mut runs, c);
                    input.pop();
                    addressed = false;
                    let ghost rest = scan(text, pos + 1, Seq::empty(), false);
                    assert(pending@ == Seq::<char>::empty());
                    assert(run_texts(runs@) == before + head);
                    assert((before + head) + rest.runs == before + (head + rest.runs));
                } else if is_symbol(c) {
                    let ghost head = flushed(pending@).push(seq![c]);
                    if !pending.as_str().is_empty() {
                        cut(&mut runs, &mut pending);
                    }
                    cut_mark(&mut runs, c);
                    input.pop();
                    addressed = true;
                    let ghost rest = scan(text, pos + 1, Seq::empty(), true);
                    assert(pending@ == Seq::<char>::empty());
                    assert(run_texts(runs@) == before + head);
                    assert((before + head) + rest.runs == before + (head + rest.runs));
                } else if is_whitespace(c) {
                    input.pop();
                } else if is_alphabetic(c) {
                    if !pending.as_str().is_empty() {
                        cut(&mut runs, &mut pending);
                    }
                    assert(run_texts(runs@) == before + here.runs);
                    open = false;
                } else {
                    assert(run_texts(runs@) == before + here.runs);
                    open = false;
                }
            },
        }
    }
    if runs.len() == 0 {
        let mut absent = String::new();
        cut(&mut runs, &mut absent);
        assert(run_texts(runs@) == seq![Seq::<char>::empty()]);
    }
    runs
}

/// Reads the address expression at the cursor into its tokens.
///
/// The cursor then stands at the first character that is no part of the
/// expression: the command letter, or the end of the line. It stands there
/// also where a run is no token and the error is returned.
pub fn extract_addresses(input: &mut EditorInput) -> (outcome: Result<Vec<Value>, AddressError>)
    ensures
        final(input).characters() == old(input).characters(),
        final(input).position() == address_end(
            old(input).characters(),
            old(input).position() as int,
        ),
        old(input).position() <= final(input).position() <= final(input).characters().len(),
        tokens_view(outcome) == tokenize(old(input).characters(), old(input).position() as int),
{
    let ghost text = input.characters();
    let ghost start = input.position() as int;
    proof {
        use_type_invariant(&*input);
        lemma_scan_stop(text, start, Seq::empty(), false);
    }
    let runs = scan_runs(input);
    let ghost texts = run_texts(runs@);
    let mut tokens: Vec<Value> = Vec::new();
    let mut at: usize = 0;
    assert(texts.take(0) == Seq::<Seq<char>>::empty());
    while at < runs.len()
        invariant
            at <= runs.len(),
            text == old(input).characters(),
            start == old(input).position(),
            input.characters() == text,
            input.position() == address_end(text, start),
            start <= address_end(text, start) <= text.len(),
            texts == run_texts(runs@),
            texts == address_runs(text, start),
            classify_runs(texts.take(at as int)) == Ok::<Seq<Value>, AddressErrorView>(tokens@),
        decreases runs.len() - at,
    {
        assert(texts.take(at + 1).drop_last() == texts.take(at as int));
        match Value::parse(runs[at].as_str()) {
            Ok(token) => {
                tokens.push(token);
            },
            Err(error) => {
                proof {
                    lemma_first_failure(texts, at as int);
                }
                return Err(error);
            },
        }
        at += 1;
    }
    assert(texts.take(runs.len() as int) == texts);
    Ok(tokens)
}

} // verus!
