//! What a scan of a text finds: the model of the tokenizer.
//!
//! The automaton starts in `Start` and reads characters until one leads to
//! `Exit` or the text ends. Spaces keep it in `Start`; the first other
//! character takes it to an accepting state or to `Exit`, and from an
//! accepting state it only reaches accepting states. So the characters read
//! are the spaces before a token and then the longest token.
//!
//! A token has at most `MAX_TOKEN` characters, half the capacity of the
//! tokenizer's buffer. A longer run that the automaton accepts is no token:
//! the scan finds it too long.

use vstd::prelude::*;
use crate::dfa::{is_space, DfaState};
use crate::token::leading_spaces;

verus! {

/// The state of the automaton after it has read `text` from `state`.
pub open spec fn run(state: DfaState, text: Seq<char>) -> DfaState
    decreases text.len(),
{
    if text.len() == 0 {
        state
    } else {
        run(state.step(text[0]), text.skip(1))
    }
}

/// How many characters of `text` the automaton reads from `state`: it stops
/// before the first character that leads to `Exit`, or where the text ends.
pub open spec fn reach(state: DfaState, text: Seq<char>) -> nat
    decreases text.len(),
{
    if text.len() == 0 || state.step(text[0]) == DfaState::Exit {
        0
    } else {
        1 + reach(state.step(text[0]), text.skip(1))
    }
}

/// The most characters that a token can have.
pub const MAX_TOKEN: usize = 2048;

/// What a scan finds at the front of a text.
pub enum Scan {
    /// A token: `skipped` spaces, then the token up to `end`, where the
    /// automaton stopped in `state`. The token has at most `MAX_TOKEN`
    /// characters.
    Token { skipped: nat, end: nat, state: DfaState },
    /// After `skipped` spaces begins a run of more than `MAX_TOKEN`
    /// characters that the automaton reads without leaving.
    TooLong { skipped: nat },
    /// After `skipped` spaces stands a character that begins no token.
    Invalid { skipped: nat },
    /// Nothing but spaces up to the end of the text.
    End,
}

/// Scans the front of `text`.
pub open spec fn scan(text: Seq<char>) -> Scan {
    let end = reach(DfaState::Start, text);
    let state = run(DfaState::Start, text.take(end as int));
    if state.accepting() {
        if end - leading_spaces(text) > MAX_TOKEN {
            Scan::TooLong { skipped: leading_spaces(text) }
        } else {
            Scan::Token { skipped: leading_spaces(text), end, state }
        }
    } else if end == text.len() {
        Scan::End
    } else {
        Scan::Invalid { skipped: end }
    }
}

/// Every character of `text` is a space.
pub open spec fn all_spaces(text: Seq<char>) -> bool {
    forall|i: int| 0 <= i < text.len() ==> is_space(#[trigger] text[i])
}

/// Reading one more character is one more step.
pub proof fn lemma_run_push(state: DfaState, text: Seq<char>, c: char)
    ensures
        run(state, text.push(c)) == run(state, text).step(c),
    decreases text.len(),
{
    if text.len() == 0 {
        assert(text.push(c).skip(1) =~= text);
        assert(run(state.step(c), text) == state.step(c));
    } else {
        lemma_run_push(state.step(text[0]), text.skip(1), c);
        assert(text.push(c).skip(1) =~= text.skip(1).push(c));
        assert(text.push(c)[0] == text[0]);
    }
}

/// The automaton reads exactly `k` characters of `text` if none of the first
/// `k` leads to `Exit` and the text ends there or the next one does.
pub proof fn lemma_reach_is(state: DfaState, text: Seq<char>, k: int)
    requires
        0 <= k <= text.len(),
        forall|j: int| 0 <= j < k ==> run(state, #[trigger] text.take(j)).step(text[j]) != DfaState::Exit,
        k == text.len() || run(state, text.take(k)).step(text[k]) == DfaState::Exit,
    ensures
        reach(state, text) == k,
    decreases k,
{
    if k == 0 {
        assert(text.take(0) =~= Seq::<char>::empty());
    } else {
        assert(text.take(0) =~= Seq::<char>::empty());
        assert(run(state, text.take(0)).step(text[0]) != DfaState::Exit);
        let next = state.step(text[0]);
        let rest = text.skip(1);
        assert forall|j: int| 0 <= j < k - 1 implies run(next, #[trigger] rest.take(j)).step(rest[j])
            != DfaState::Exit by {
            assert(text.take(j + 1).skip(1) =~= rest.take(j));
            assert(run(state, text.take(j + 1)).step(text[j + 1]) != DfaState::Exit);
        }
        assert(text.take(k).skip(1) =~= rest.take(k - 1));
        lemma_reach_is(next, rest, k - 1);
    }
}

/// The automaton reads at least `k` characters of `text` if none of the
/// first `k` leads to `Exit`.
pub proof fn lemma_reach_at_least(state: DfaState, text: Seq<char>, k: int)
    requires
        0 <= k <= text.len(),
        forall|j: int| 0 <= j < k ==> run(state, #[trigger] text.take(j)).step(text[j]) != DfaState::Exit,
    ensures
        reach(state, text) >= k,
    decreases k,
{
    if k > 0 {
        assert(text.take(0) =~= Seq::<char>::empty());
        assert(run(state, text.take(0)).step(text[0]) != DfaState::Exit);
        let next = state.step(text[0]);
        let rest = text.skip(1);
        assert forall|j: int| 0 <= j < k - 1 implies run(next, #[trigger] rest.take(j)).step(rest[j])
            != DfaState::Exit by {
            assert(text.take(j + 1).skip(1) =~= rest.take(j));
            assert(run(state, text.take(j + 1)).step(text[j + 1]) != DfaState::Exit);
        }
        lemma_reach_at_least(next, rest, k - 1);
    }
}

/// A text of nothing but spaces leaves the automaton in `Start`.
pub proof fn lemma_spaces_keep_start(text: Seq<char>)
    requires
        leading_spaces(text) == text.len(),
    ensures
        run(DfaState::Start, text) == DfaState::Start,
    decreases text.len(),
{
    if text.len() > 0 {
        lemma_spaces_keep_start(text.skip(1));
    }
}

/// The spaces at the front of a text are those at the front of each
/// beginning of it that holds another character.
pub proof fn lemma_leading_spaces_take(text: Seq<char>, n: int)
    requires
        0 <= n <= text.len(),
        leading_spaces(text.take(n)) < n,
    ensures
        leading_spaces(text) == leading_spaces(text.take(n)),
    decreases text.len(),
{
    if is_space(text[0]) {
        assert(text.take(n)[0] == text[0]);
        assert(text.take(n).skip(1) =~= text.skip(1).take(n - 1));
        lemma_leading_spaces_take(text.skip(1), n - 1);
    } else {
        assert(text.take(n)[0] == text[0]);
    }
}

/// One more character at the end of a text is one more space at its front
/// only if it is a space and the text holds nothing but spaces.
pub proof fn lemma_leading_spaces_push(text: Seq<char>, c: char)
    ensures
        leading_spaces(text.push(c)) == if leading_spaces(text) == text.len() && is_space(c) {
            text.len() + 1
        } else {
            leading_spaces(text)
        },
    decreases text.len(),
{
    let longer = text.push(c);
    if text.len() == 0 {
        assert(longer.skip(1) =~= text);
        assert(leading_spaces(longer.skip(1)) == 0);
    } else {
        assert(longer[0] == text[0]);
        assert(longer.skip(1) =~= text.skip(1).push(c));
        if is_space(text[0]) {
            lemma_leading_spaces_push(text.skip(1), c);
        }
    }
}

/// Where the automaton has read the first `end` characters of a text and
/// stands in an accepting state, the spaces at the front of the text are
/// among them, and a character of the token follows.
pub proof fn lemma_leading_spaces_of_token(text: Seq<char>, end: int)
    requires
        0 <= end <= text.len(),
        run(DfaState::Start, text.take(end)).accepting(),
    ensures
        leading_spaces(text.take(end)) == leading_spaces(text),
        leading_spaces(text) < end,
{
    let read = text.take(end);
    lemma_leading_spaces(read);
    if leading_spaces(read) == read.len() {
        lemma_spaces_keep_start(read);
    }
    lemma_leading_spaces_take(text, end);
}

/// From `Exit` the automaton goes nowhere else.
pub proof fn lemma_run_from_exit(text: Seq<char>)
    ensures
        run(DfaState::Exit, text) == DfaState::Exit,
    decreases text.len(),
{
    if text.len() > 0 {
        lemma_run_from_exit(text.skip(1));
    }
}

/// Reading two texts one after the other is reading them joined.
pub proof fn lemma_run_concat(state: DfaState, first: Seq<char>, second: Seq<char>)
    ensures
        run(state, first + second) == run(run(state, first), second),
    decreases first.len(),
{
    if first.len() == 0 {
        assert(first + second =~= second);
    } else {
        lemma_run_concat(state.step(first[0]), first.skip(1), second);
        assert((first + second).skip(1) =~= first.skip(1) + second);
        assert((first + second)[0] == first[0]);
    }
}

/// The spaces at the front of a text are spaces, and what follows them is
/// none.
pub proof fn lemma_leading_spaces(text: Seq<char>)
    ensures
        leading_spaces(text) <= text.len(),
        all_spaces(text.take(leading_spaces(text) as int)),
        leading_spaces(text) < text.len() ==> !is_space(text[leading_spaces(text) as int]),
        all_spaces(text) <==> leading_spaces(text) == text.len(),
    decreases text.len(),
{
    if text.len() > 0 && is_space(text[0]) {
        let rest = text.skip(1);
        lemma_leading_spaces(rest);
        let n = leading_spaces(rest) as int;
        assert forall|i: int| 0 <= i < n + 1 implies is_space(#[trigger] text.take(n + 1)[i]) by {
            if i > 0 {
                assert(text.take(n + 1)[i] == rest.take(n)[i - 1]);
            }
        }
        if all_spaces(text) {
            assert forall|i: int| 0 <= i < rest.len() implies is_space(#[trigger] rest[i]) by {
                assert(rest[i] == text[i + 1]);
            }
        }
        if n == rest.len() {
            assert(rest.take(n) =~= rest);
            assert forall|i: int| 0 <= i < text.len() implies is_space(#[trigger] text[i]) by {
                if i > 0 {
                    assert(text[i] == rest[i - 1]);
                }
            }
        } else {
            assert(text[n + 1] == rest[n]);
        }
    } else {
        assert(text.take(0) =~= Seq::<char>::empty());
        if text.len() > 0 {
            assert(!is_space(text[0]));
        }
    }
}

/// Once the automaton has left `Start` it does not come back.
pub proof fn lemma_no_way_back(state: DfaState, text: Seq<char>)
    requires
        state != DfaState::Start,
    ensures
        run(state, text) != DfaState::Start,
    decreases text.len(),
{
    if text.len() > 0 {
        lemma_no_way_back(state.step(text[0]), text.skip(1));
    }
}

/// The automaton stands in `Start` exactly after nothing but spaces.
pub proof fn lemma_start_means_spaces(text: Seq<char>)
    ensures
        run(DfaState::Start, text) == DfaState::Start <==> all_spaces(text),
    decreases text.len(),
{
    lemma_leading_spaces(text);
    if all_spaces(text) {
        lemma_spaces_keep_start(text);
    }
    if text.len() > 0 {
        let rest = text.skip(1);
        if is_space(text[0]) {
            lemma_start_means_spaces(rest);
            lemma_leading_spaces(rest);
        } else {
            lemma_no_way_back(DfaState::Start.step(text[0]), rest);
        }
    }
}

/// From `Start` the automaton reaches `Start`, `Exit` and the accepting
/// states, and from an accepting state `Exit` and accepting states.
pub proof fn lemma_run_stays_in_range(state: DfaState, text: Seq<char>)
    requires
        state != DfaState::Error,
    ensures
        run(state, text) != DfaState::Error,
    decreases text.len(),
{
    if text.len() > 0 {
        lemma_run_stays_in_range(state.step(text[0]), text.skip(1));
    }
}

/// What the characters that the automaton reads are: none of them leads to
/// `Exit`, and the one behind them, if there is one, does.
pub proof fn lemma_reach(state: DfaState, text: Seq<char>)
    ensures
        reach(state, text) <= text.len(),
        forall|j: int|
            0 <= j < reach(state, text) ==> run(state, #[trigger] text.take(j)).step(text[j])
                != DfaState::Exit,
        reach(state, text) < text.len() ==> run(
            state,
            text.take(reach(state, text) as int),
        ).step(text[reach(state, text) as int]) == DfaState::Exit,
        state != DfaState::Exit ==> run(state, text.take(reach(state, text) as int))
            != DfaState::Exit,
    decreases text.len(),
{
    assert(text.take(0) =~= Seq::<char>::empty());
    if text.len() == 0 || state.step(text[0]) == DfaState::Exit {
    } else {
        let next = state.step(text[0]);
        let rest = text.skip(1);
        let n = reach(next, rest) as int;
        lemma_reach(next, rest);
        assert(text.take(n + 1).skip(1) =~= rest.take(n));
        assert(text.take(n + 1)[0] == text[0]);
        assert forall|j: int| 0 <= j < n + 1 implies run(state, #[trigger] text.take(j)).step(
            text[j],
        ) != DfaState::Exit by {
            if j > 0 {
                assert(text.take(j).skip(1) =~= rest.take(j - 1));
                assert(text.take(j)[0] == text[0]);
                assert(run(next, rest.take(j - 1)).step(rest[j - 1]) != DfaState::Exit);
            }
        }
    }
}

/// A text of nothing but spaces, and no other, is scanned to its end
/// without a token.
pub proof fn lemma_spaces_scan_to_end(text: Seq<char>)
    ensures
        scan(text) == Scan::End <==> all_spaces(text),
{
    let end = reach(DfaState::Start, text);
    lemma_reach(DfaState::Start, text);
    lemma_run_stays_in_range(DfaState::Start, text.take(end as int));
    lemma_start_means_spaces(text.take(end as int));
    if all_spaces(text) {
        assert forall|j: int| 0 <= j < text.len() implies run(
            DfaState::Start,
            #[trigger] text.take(j),
        ).step(text[j]) != DfaState::Exit by {
            lemma_start_means_spaces(text.take(j));
        }
        lemma_reach_is(DfaState::Start, text, text.len() as int);
    }
    if end == text.len() {
        assert(text.take(end as int) =~= text);
    }
}

/// Where a scan finds a character that begins no token, the characters
/// before it are the spaces at the front of the text, and from `Start` it
/// leads to `Exit`.
pub proof fn lemma_invalid_after_spaces(text: Seq<char>)
    ensures
        scan(text) matches Scan::Invalid { skipped } ==> {
            &&& skipped == leading_spaces(text)
            &&& skipped < text.len()
            &&& DfaState::Start.step(text[skipped as int]) == DfaState::Exit
        },
{
    let end = reach(DfaState::Start, text);
    let read = text.take(end as int);
    lemma_reach(DfaState::Start, text);
    lemma_run_stays_in_range(DfaState::Start, read);
    lemma_start_means_spaces(read);
    lemma_leading_spaces(text);
    if scan(text) is Invalid {
        let n = leading_spaces(text) as int;
        if n < end {
            assert(read[n] == text[n]);
        } else if n > end {
            assert(text.take(n)[end as int] == text[end as int]);
        }
    }
}

/// Maximal munch. The token that a scan finds begins behind the spaces at
/// the front of the text, has at most `MAX_TOKEN` characters, the automaton
/// accepts it, and it accepts no longer run of characters from there: each
/// leads to `Exit`.
pub proof fn lemma_longest_match(text: Seq<char>)
    ensures
        scan(text) matches Scan::Token { skipped, end, state } ==> {
            &&& skipped == leading_spaces(text)
            &&& skipped < end <= text.len()
            &&& end - skipped <= MAX_TOKEN
            &&& state.accepting()
            &&& run(DfaState::Start, text.subrange(skipped as int, end as int)) == state
            &&& forall|k: int|
                end < k <= text.len() ==> run(
                    DfaState::Start,
                    #[trigger] text.subrange(skipped as int, k),
                ) == DfaState::Exit
        },
{
    if let Scan::Token { skipped, end, state } = scan(text) {
        let spaces = text.take(skipped as int);
        lemma_reach(DfaState::Start, text);
        lemma_leading_spaces_of_token(text, end as int);
        lemma_leading_spaces(text);
        lemma_start_means_spaces(spaces);
        assert(text.take(end as int) =~= spaces + text.subrange(skipped as int, end as int));
        lemma_run_concat(DfaState::Start, spaces, text.subrange(skipped as int, end as int));
        assert forall|k: int| end < k <= text.len() implies run(
            DfaState::Start,
            #[trigger] text.subrange(skipped as int, k),
        ) == DfaState::Exit by {
            let read = text.take(end as int);
            let rest = text.subrange(end as int + 1, k);
            lemma_run_push(DfaState::Start, read, text[end as int]);
            lemma_run_concat(DfaState::Start, read.push(text[end as int]), rest);
            lemma_run_from_exit(rest);
            assert(text.take(k) =~= read.push(text[end as int]) + rest);
            assert(text.take(k) =~= spaces + text.subrange(skipped as int, k));
            lemma_run_concat(DfaState::Start, spaces, text.subrange(skipped as int, k));
        }
    }
}

/// The bound on a token. Where the automaton reads more than `MAX_TOKEN`
/// characters behind the spaces at the front of a text, the scan finds no
/// token, neither the whole run nor a beginning of it: the run is too long.
pub proof fn lemma_long_run_is_too_long(text: Seq<char>)
    requires
        reach(DfaState::Start, text) > leading_spaces(text) + MAX_TOKEN,
    ensures
        scan(text) == (Scan::TooLong { skipped: leading_spaces(text) }),
{
    let end = reach(DfaState::Start, text);
    let read = text.take(end as int);
    lemma_reach(DfaState::Start, text);
    lemma_run_stays_in_range(DfaState::Start, read);
    lemma_leading_spaces(text);
    if run(DfaState::Start, read) == DfaState::Start {
        lemma_start_means_spaces(read);
        assert(is_space(read[leading_spaces(text) as int]));
    }
}

/// A scan finds a run too long only where the automaton reads more than
/// `MAX_TOKEN` characters behind the spaces.
pub proof fn lemma_too_long_is_a_long_run(text: Seq<char>)
    ensures
        scan(text) matches Scan::TooLong { skipped } ==> {
            &&& skipped == leading_spaces(text)
            &&& reach(DfaState::Start, text) > skipped + MAX_TOKEN
            &&& reach(DfaState::Start, text) <= text.len()
        },
{
    lemma_reach(DfaState::Start, text);
}

/// The leading-zero rule. A zero behind the spaces at the front of a text is
/// a token of its own, whatever follows it.
pub proof fn lemma_zero_stands_alone(text: Seq<char>)
    requires
        leading_spaces(text) < text.len(),
        text[leading_spaces(text) as int] == '0',
    ensures
        scan(text) == (Scan::Token {
            skipped: leading_spaces(text),
            end: leading_spaces(text) + 1,
            state: DfaState::Zero,
        }),
{
    let skipped = leading_spaces(text) as int;
    lemma_leading_spaces(text);
    assert forall|j: int| 0 <= j <= skipped implies run(DfaState::Start, #[trigger] text.take(j))
        == DfaState::Start by {
        assert forall|i: int| 0 <= i < j implies is_space(#[trigger] text.take(j)[i]) by {
            assert(text.take(j)[i] == text.take(skipped)[i]);
        }
        lemma_start_means_spaces(text.take(j));
    }
    assert forall|j: int| 0 <= j < skipped + 1 implies run(
        DfaState::Start,
        #[trigger] text.take(j),
    ).step(text[j]) != DfaState::Exit by {
        if j < skipped {
            assert(is_space(text.take(skipped)[j]));
        }
    }
    lemma_run_push(DfaState::Start, text.take(skipped), '0');
    assert(text.take(skipped + 1) =~= text.take(skipped).push('0'));
    lemma_reach_is(DfaState::Start, text, skipped + 1);
}

/// The spans of a text that successive scans consume: for each token the
/// spaces before it and the token itself, and last what is left where a scan
/// finds no token or a run too long for one.
pub open spec fn spans(text: Seq<char>) -> Seq<Seq<char>>
    decreases text.len(),
{
    match scan(text) {
        Scan::Token { skipped, end, state } => if 0 < end <= text.len() {
            seq![text.take(skipped as int), text.subrange(skipped as int, end as int)] + spans(
                text.skip(end as int),
            )
        } else {
            seq![text]
        },
        _ => seq![text],
    }
}

/// Round trip. The spans that successive scans consume, joined in their
/// order, are the text.
pub proof fn lemma_spans_rebuild(text: Seq<char>)
    ensures
        spans(text).flatten() == text,
    decreases text.len(),
{
    let all = spans(text);
    match scan(text) {
        Scan::Token { skipped, end, state } => {
            if 0 < end <= text.len() {
                let spaces = text.take(skipped as int);
                let token = text.subrange(skipped as int, end as int);
                let rest = spans(text.skip(end as int));
                lemma_longest_match(text);
                lemma_spans_rebuild(text.skip(end as int));
                assert(all.drop_first() =~= seq![token] + rest);
                assert(all.drop_first().drop_first() =~= rest);
                assert(all.drop_first().flatten() == token + rest.flatten());
                assert(all.flatten() == spaces + (token + rest.flatten()));
                assert(spaces + (token + text.skip(end as int)) =~= text);
            } else {
                all.lemma_flatten_one_element();
            }
        },
        _ => {
            all.lemma_flatten_one_element();
        },
    }
}

} // verus!
