//! Splitting a command line into arguments, honouring single and double quotes.

use vstd::prelude::*;

verus! {

/// The state of one tokenizing pass: the arguments finished so far, the
/// argument being accumulated, and whether a single- or a double-quoted
/// region is open.
pub struct ScanState {
    pub args: Seq<Seq<char>>,
    pub current: Seq<char>,
    pub in_single: bool,
    pub in_double: bool,
}

/// The state before the first character.
pub open spec fn initial_state() -> ScanState {
    ScanState { args: seq![], current: seq![], in_single: false, in_double: false }
}

/// How one character changes the state.
pub open spec fn step(st: ScanState, c: char) -> ScanState {
    if c == '\'' {
        if st.in_double {
            st
        } else {
            ScanState { in_single: !st.in_single, ..st }
        }
    } else if c == '"' {
        if st.in_single {
            st
        } else {
            ScanState { in_double: !st.in_double, ..st }
        }
    } else if c == ' ' && !st.in_single && !st.in_double {
        if st.current.len() > 0 {
            ScanState { args: st.args.push(st.current), current: seq![], ..st }
        } else {
            st
        }
    } else {
        ScanState { current: st.current.push(c), ..st }
    }
}

/// The state after scanning every character of `s`, in order, from `st`.
pub open spec fn scan(st: ScanState, s: Seq<char>) -> ScanState
    decreases s.len(),
{
    if s.len() == 0 {
        st
    } else {
        scan(step(st, s[0]), s.drop_first())
    }
}

/// The arguments of a line, or `None` when a quoted region is left open.
pub open spec fn tokens(s: Seq<char>) -> Option<Seq<Seq<char>>> {
    let st = scan(initial_state(), s);
    if st.in_single || st.in_double {
        None
    } else if st.current.len() > 0 {
        Some(st.args.push(st.current))
    } else {
        Some(st.args)
    }
}

/// The reason given for a line whose quotes are not balanced.
pub open spec fn mismatched_quotes() -> Seq<char> {
    "mismatched quotes"@
}

/// Scanning a concatenation is scanning its parts one after the other.
pub proof fn lemma_scan_concat(st: ScanState, a: Seq<char>, b: Seq<char>)
    ensures
        scan(st, a + b) == scan(scan(st, a), b),
    decreases a.len(),
{
    if a.len() == 0 {
        assert(a + b =~= b);
    } else {
        assert((a + b).drop_first() =~= a.drop_first() + b);
        lemma_scan_concat(step(st, a[0]), a.drop_first(), b);
    }
}

/// Scanning one more character is one more step.
proof fn lemma_scan_extend(st: ScanState, s: Seq<char>, i: int)
    requires
        0 <= i < s.len(),
    ensures
        scan(st, s.take(i + 1)) == step(scan(st, s.take(i)), s[i]),
{
    assert(s.take(i + 1) =~= s.take(i) + seq![s[i]]);
    lemma_scan_concat(st, s.take(i), seq![s[i]]);
    let mid = scan(st, s.take(i));
    assert(seq![s[i]].drop_first() =~= Seq::<char>::empty());
    assert(scan(mid, seq![s[i]]) == scan(step(mid, s[i]), Seq::<char>::empty()));
}

/// Scanning one character is one step.
proof fn lemma_scan_one(st: ScanState, c: char)
    ensures
        scan(st, seq![c]) == step(st, c),
{
    assert(seq![c].drop_first() =~= Seq::<char>::empty());
    assert(scan(st, seq![c]) == scan(step(st, c), Seq::<char>::empty()));
}

/// Words joined with one space between each two.
pub open spec fn join_words(ws: Seq<Seq<char>>) -> Seq<char>
    decreases ws.len(),
{
    if ws.len() == 0 {
        seq![]
    } else if ws.len() == 1 {
        ws[0]
    } else {
        join_words(ws.drop_last()) + seq![' '] + ws.last()
    }
}

/// A word that holds neither a space nor a quote character.
pub open spec fn is_plain_word(w: Seq<char>) -> bool {
    &&& w.len() > 0
    &&& forall|i: int| 0 <= i < w.len() ==> w[i] != ' ' && w[i] != '\'' && w[i] != '"'
}

/// A word that holds no quote character; it may hold spaces.
pub open spec fn is_single_quotable(w: Seq<char>) -> bool {
    &&& w.len() > 0
    &&& forall|i: int| 0 <= i < w.len() ==> w[i] != '\'' && w[i] != '"'
}

/// `w` between two single quotes.
pub open spec fn single_quoted(w: Seq<char>) -> Seq<char> {
    seq!['\''] + w + seq!['\'']
}

/// Outside quotes, the characters of a plain word are accumulated as they are.
proof fn lemma_scan_plain(st: ScanState, w: Seq<char>)
    requires
        !st.in_single,
        !st.in_double,
        forall|i: int| 0 <= i < w.len() ==> w[i] != ' ' && w[i] != '\'' && w[i] != '"',
    ensures
        scan(st, w) == (ScanState { current: st.current + w, ..st }),
    decreases w.len(),
{
    if w.len() == 0 {
        assert(st.current + w =~= st.current);
    } else {
        let next = step(st, w[0]);
        assert(forall|i: int|
            0 <= i < w.drop_first().len() ==> #[trigger] w.drop_first()[i] == w[i + 1]);
        lemma_scan_plain(next, w.drop_first());
        assert(st.current.push(w[0]) + w.drop_first() =~= st.current + w);
    }
}

/// Inside single quotes, every character but a quote character is accumulated
/// as it is.
proof fn lemma_scan_in_single(st: ScanState, w: Seq<char>)
    requires
        st.in_single,
        !st.in_double,
        forall|i: int| 0 <= i < w.len() ==> w[i] != '\'' && w[i] != '"',
    ensures
        scan(st, w) == (ScanState { current: st.current + w, ..st }),
    decreases w.len(),
{
    if w.len() == 0 {
        assert(st.current + w =~= st.current);
    } else {
        let next = step(st, w[0]);
        assert(forall|i: int|
            0 <= i < w.drop_first().len() ==> #[trigger] w.drop_first()[i] == w[i + 1]);
        lemma_scan_in_single(next, w.drop_first());
        assert(st.current.push(w[0]) + w.drop_first() =~= st.current + w);
    }
}

/// Outside quotes, a single-quoted word adds the word to the accumulator.
proof fn lemma_scan_single_quoted(st: ScanState, w: Seq<char>)
    requires
        !st.in_single,
        !st.in_double,
        forall|i: int| 0 <= i < w.len() ==> w[i] != '\'' && w[i] != '"',
    ensures
        scan(st, single_quoted(w)) == (ScanState { current: st.current + w, ..st }),
{
    let open_st = step(st, '\'');
    lemma_scan_one(st, '\'');
    lemma_scan_concat(st, seq!['\''] + w, seq!['\'']);
    lemma_scan_concat(st, seq!['\''], w);
    lemma_scan_in_single(open_st, w);
    lemma_scan_one(scan(open_st, w), '\'');
}

/// Scanning plain words joined by spaces leaves all but the last as finished
/// arguments and the last in the accumulator.
proof fn lemma_scan_join_plain(ws: Seq<Seq<char>>)
    requires
        ws.len() >= 1,
        forall|i: int| 0 <= i < ws.len() ==> is_plain_word(#[trigger] ws[i]),
    ensures
        scan(initial_state(), join_words(ws)) == (ScanState {
            args: ws.drop_last(),
            current: ws.last(),
            in_single: false,
            in_double: false,
        }),
    decreases ws.len(),
{
    let init = initial_state();
    if ws.len() == 1 {
        lemma_scan_plain(init, ws[0]);
        assert(init.current + ws[0] =~= ws[0]);
        assert(ws.drop_last() =~= init.args);
    } else {
        let dl = ws.drop_last();
        assert(is_plain_word(ws.last()));
        assert(forall|i: int| 0 <= i < dl.len() ==> #[trigger] dl[i] == ws[i]);
        lemma_scan_join_plain(dl);
        assert(is_plain_word(dl.last()));
        let mid = scan(init, join_words(dl));
        lemma_scan_concat(init, join_words(dl) + seq![' '], ws.last());
        lemma_scan_concat(init, join_words(dl), seq![' ']);
        lemma_scan_one(mid, ' ');
        let after_space = step(mid, ' ');
        assert(after_space.args =~= dl);
        lemma_scan_plain(after_space, ws.last());
        assert(after_space.current + ws.last() =~= ws.last());
    }
}

/// Scanning single-quoted words joined by spaces leaves all but the last word
/// as finished arguments and the last in the accumulator.
proof fn lemma_scan_join_quoted(ws: Seq<Seq<char>>)
    requires
        ws.len() >= 1,
        forall|i: int| 0 <= i < ws.len() ==> is_single_quotable(#[trigger] ws[i]),
    ensures
        scan(initial_state(), join_words(ws.map_values(|w: Seq<char>| single_quoted(w))))
            == (ScanState {
            args: ws.drop_last(),
            current: ws.last(),
            in_single: false,
            in_double: false,
        }),
    decreases ws.len(),
{
    let init = initial_state();
    let qs = ws.map_values(|w: Seq<char>| single_quoted(w));
    if ws.len() == 1 {
        lemma_scan_single_quoted(init, ws[0]);
        assert(init.current + ws[0] =~= ws[0]);
        assert(ws.drop_last() =~= init.args);
    } else {
        let dl = ws.drop_last();
        assert(is_single_quotable(ws.last()));
        assert(forall|i: int| 0 <= i < dl.len() ==> #[trigger] dl[i] == ws[i]);
        lemma_scan_join_quoted(dl);
        assert(is_single_quotable(dl.last()));
        assert(qs.drop_last() =~= dl.map_values(|w: Seq<char>| single_quoted(w)));
        let mid = scan(init, join_words(qs.drop_last()));
        lemma_scan_concat(init, join_words(qs.drop_last()) + seq![' '], qs.last());
        lemma_scan_concat(init, join_words(qs.drop_last()), seq![' ']);
        lemma_scan_one(mid, ' ');
        let after_space = step(mid, ' ');
        assert(after_space.args =~= dl);
        lemma_scan_single_quoted(after_space, ws.last());
        assert(after_space.current + ws.last() =~= ws.last());
    }
}

/// Words that hold no space and no quote character, joined by single spaces,
/// tokenize back into the same words.
pub proof fn lemma_plain_words_round_trip(ws: Seq<Seq<char>>)
    requires
        forall|i: int| 0 <= i < ws.len() ==> is_plain_word(#[trigger] ws[i]),
    ensures
        tokens(join_words(ws)) == Some(ws),
{
    if ws.len() == 0 {
        assert(scan(initial_state(), join_words(ws)) == initial_state());
    } else {
        lemma_scan_join_plain(ws);
        assert(ws.drop_last().push(ws.last()) =~= ws);
    }
}

/// Non-empty words that hold no quote character, each put between single
/// quotes and joined by single spaces, tokenize back into the same words:
/// spaces inside them are kept.
pub proof fn lemma_quoted_words_round_trip(ws: Seq<Seq<char>>)
    requires
        forall|i: int| 0 <= i < ws.len() ==> is_single_quotable(#[trigger] ws[i]),
    ensures
        tokens(join_words(ws.map_values(|w: Seq<char>| single_quoted(w)))) == Some(ws),
{
    let qs = ws.map_values(|w: Seq<char>| single_quoted(w));
    if ws.len() == 0 {
        assert(scan(initial_state(), join_words(qs)) == initial_state());
    } else {
        lemma_scan_join_quoted(ws);
        assert(ws.drop_last().push(ws.last()) =~= ws);
    }
}

/// Relies on std's `String::push`, documented to append the given character
/// to the end of the string.
pub assume_specification[ String::push ](s: &mut String, ch: char)
    ensures
        final(s)@ == old(s)@.push(ch),
;

/// Splits `input` into arguments. A space outside quotes separates arguments,
/// and runs of such spaces produce no empty argument. A single quote outside a
/// double-quoted region opens or closes a single-quoted region, and a double
/// quote outside a single-quoted region a double-quoted one; quote characters
/// are always dropped, also those inside a region of the other kind. Fails when a region is left open.
pub fn parse_command(input: &str) -> (r: Result<Vec<String>, &'static str>)
    ensures
        match r {
            Ok(args) => tokens(input@) == Some(args.deep_view()),
            Err(e) => tokens(input@) is None && e@ == mismatched_quotes(),
        },
{
    let mut args: Vec<String> = Vec::new();
    let mut current = String::new();
    let mut in_single_quote = false;
    let mut in_double_quote = false;
    assert(input@.take(0) =~= Seq::<char>::empty());
    assert(args.deep_view() =~= Seq::<Seq<char>>::empty());
    for c in it: input.chars()
        invariant
            it.seq() == input@,
            scan(initial_state(), input@.take(it.index() as int)) == (ScanState {
                args: args.deep_view(),
                current: current@,
                in_single: in_single_quote,
                in_double: in_double_quote,
            }),
    {
        proof {
            lemma_scan_extend(initial_state(), input@, it.index() as int);
        }
        if c == '\'' {
            if !in_double_quote {
                in_single_quote = !in_single_quote;
            }
        } else if c == '"' {
            if !in_single_quote {
                in_double_quote = !in_double_quote;
            }
        } else if c == ' ' && !in_single_quote && !in_double_quote {
            if !current.as_str().is_empty() {
                let ghost before = args.deep_view();
                args.push(current);
                assert(args.deep_view() =~= before.push(current@));
                current = String::new();
            }
        } else {
            current.push(c);
        }
    }
    assert(input@.take(input@.len() as int) =~= input@);
    if in_single_quote || in_double_quote {
        proof {
            reveal_strlit("mismatched quotes");
        }
        return Err("mismatched quotes");
    }
    if !current.as_str().is_empty() {
        let ghost before = args.deep_view();
        args.push(current);
        assert(args.deep_view() =~= before.push(current@));
    }
    Ok(args)
}

} // verus!
