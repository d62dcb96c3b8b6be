//! What the contracts add up to: laws of whole programs, proved over the
//! model that the executable functions are held to.

use vstd::prelude::*;
use crate::lexer::{define, lex_line, lex_words, resolve, LexOutcome};
use crate::machine::{
    builtins, exec_token, exec_tokens, interpret, run_definition, FrameView, Step,
};
use crate::model::{DefinitionView, ErrorView, Keyword, NativeOp, Outcome, State, TokenView};
use crate::native::{
    apply_native, binary_value, divisible, flag, is_binary, lemma_quotient_fits,
    truncated_quotient, wrap,
};
use crate::text::{
    all_digits, decimal, digit_char, digits_of, digits_value, is_digit, is_space, joined,
    number_value, words,
};

verus! {

/// The token of a built-in word.
pub open spec fn word(op: NativeOp) -> TokenView {
    TokenView::Op(DefinitionView::Native(op))
}

/// How many values a built-in word needs on the stack.
pub open spec fn operands(op: NativeOp) -> nat {
    match op {
        NativeOp::Drop => 0,
        NativeOp::Dup | NativeOp::Print => 1,
        _ => 2,
    }
}

/// Executing a sequence is executing its first token and then, if that
/// did not fail, the others.
pub proof fn lemma_first_then_rest(
    st: State,
    frames: Seq<FrameView>,
    first: TokenView,
    rest: Seq<TokenView>,
    depth: nat,
)
    ensures
        exec_tokens(st, frames, seq![first] + rest, depth) == ({
            let step = exec_token(st, frames, first, depth);
            match step.result {
                Ok(()) => exec_tokens(step.state, step.frames, rest, depth),
                Err(e) => Outcome { state: step.state, result: Err(e) },
            }
        }),
{
    let tokens = seq![first] + rest;
    assert(tokens.drop_first() =~= rest);
}

/// Two numbers, a two-operand word that has a value on them, and `.`:
/// the value is pushed on the stack as it was, and printed. Nothing else
/// changes, at any depth and whatever the dictionary holds.
pub proof fn law_binary_word_prints_its_value(st: State, op: NativeOp, a: i64, b: i64, depth: nat)
    requires
        is_binary(op),
        binary_value(op, a, b) is Some,
    ensures
        exec_tokens(
            st,
            Seq::empty(),
            seq![TokenView::Number(a), TokenView::Number(b), word(op), word(NativeOp::Print)],
            depth,
        ) == (Outcome {
            state: State {
                stack: st.stack.push(binary_value(op, a, b)->Some_0),
                dict: st.dict,
                output: st.output.push(binary_value(op, a, b)->Some_0),
            },
            result: Ok(()),
        }),
{
    let v = binary_value(op, a, b)->Some_0;
    let none = Seq::<FrameView>::empty();
    let end = Seq::<TokenView>::empty();
    let t4 = seq![word(NativeOp::Print)] + end;
    let t3 = seq![word(op)] + t4;
    let t2 = seq![TokenView::Number(b)] + t3;
    let t1 = seq![TokenView::Number(a)] + t2;
    assert(t1 =~= seq![
        TokenView::Number(a),
        TokenView::Number(b),
        word(op),
        word(NativeOp::Print),
    ]);
    let s1 = State { stack: st.stack.push(a), ..st };
    let s2 = State { stack: s1.stack.push(b), ..s1 };
    let s3 = State { stack: st.stack.push(v), ..st };
    lemma_first_then_rest(st, none, TokenView::Number(a), t2, depth);
    lemma_first_then_rest(s1, none, TokenView::Number(b), t3, depth);
    lemma_first_then_rest(s2, none, word(op), t4, depth);
    lemma_first_then_rest(s3, none, word(NativeOp::Print), end, depth);
    assert(s2.stack.take(s2.stack.len() - 2) =~= st.stack);
}

/// `+`, `-` and `*` give the sum, the difference and the product
/// wherever that fits in 64 bits; elsewhere its 64-bit two's complement
/// value.
pub proof fn law_arithmetic_is_exact_in_range(a: i64, b: i64)
    ensures
        i64::MIN <= a + b <= i64::MAX ==> binary_value(NativeOp::Add, a, b) == Some((a + b) as i64),
        i64::MIN <= a - b <= i64::MAX ==> binary_value(NativeOp::Sub, a, b) == Some((a - b) as i64),
        i64::MIN <= a * b <= i64::MAX ==> binary_value(NativeOp::Mul, a, b) == Some((a * b) as i64),
{
    lemma_wrap_in_range(a + b);
    lemma_wrap_in_range(a - b);
    lemma_wrap_in_range(a * b);
}

/// Wrapping leaves a value that fits in 64 bits as it is.
pub proof fn lemma_wrap_in_range(v: int)
    ensures
        i64::MIN <= v <= i64::MAX ==> wrap(v) == v,
{
}

/// Two numbers and `/` where the quotient has no value: the division
/// fails with `DivByZero` and prints nothing, and both numbers stay on the
/// stack. A zero divisor is such a case.
pub proof fn law_division_without_value_fails(st: State, a: i64, b: i64, depth: nat)
    requires
        !divisible(a, b),
    ensures
        exec_tokens(
            st,
            Seq::empty(),
            seq![TokenView::Number(a), TokenView::Number(b), word(NativeOp::Div)],
            depth,
        ) == (Outcome {
            state: State { stack: st.stack.push(a).push(b), ..st },
            result: Err(ErrorView::DivByZero),
        }),
        !divisible(a, 0),
{
    let none = Seq::<FrameView>::empty();
    let end = Seq::<TokenView>::empty();
    let t3 = seq![word(NativeOp::Div)] + end;
    let t2 = seq![TokenView::Number(b)] + t3;
    let t1 = seq![TokenView::Number(a)] + t2;
    assert(t1 =~= seq![TokenView::Number(a), TokenView::Number(b), word(NativeOp::Div)]);
    let s1 = State { stack: st.stack.push(a), ..st };
    let s2 = State { stack: s1.stack.push(b), ..s1 };
    lemma_first_then_rest(st, none, TokenView::Number(a), t2, depth);
    lemma_first_then_rest(s1, none, TokenView::Number(b), t3, depth);
    lemma_first_then_rest(s2, none, word(NativeOp::Div), end, depth);
}

/// Where the quotient has a value, `/` gives the quotient rounded toward
/// zero: what is left of the dividend, `a - q * b`, is smaller than the
/// divisor in absolute value and never has the sign opposite to the
/// dividend's.
pub proof fn law_division_truncates(a: i64, b: i64)
    requires
        divisible(a, b),
    ensures
        binary_value(NativeOp::Div, a, b) == Some(truncated_quotient(a as int, b as int) as i64),
        i64::MIN <= truncated_quotient(a as int, b as int) <= i64::MAX,
        ({
            let q = truncated_quotient(a as int, b as int);
            let r = a - q * b;
            &&& (a >= 0 ==> 0 <= r)
            &&& (a <= 0 ==> r <= 0)
            &&& (b > 0 ==> -b < r < b)
            &&& (b < 0 ==> b < r < -b)
        }),
{
    lemma_quotient_fits(a, b);
    let x = a as int;
    let y = b as int;
    let n = if x < 0 { -x } else { x };
    let d = if y < 0 { -y } else { y };
    assert(0 <= n - (n / d) * d < d) by (nonlinear_arith)
        requires
            n >= 0,
            d > 0,
    ;
    let k = n / d;
    assert(k * (-d) == -(k * d) && (-k) * d == -(k * d) && (-k) * (-d) == k * d)
        by (nonlinear_arith);
}

/// A number, `dup`, `+` and `.`: twice the number is left in its place
/// and printed (its 64-bit two's complement value where it does not fit).
pub proof fn law_dup_add_doubles(st: State, n: i64, depth: nat)
    ensures
        exec_tokens(
            st,
            Seq::empty(),
            seq![
                TokenView::Number(n),
                word(NativeOp::Dup),
                word(NativeOp::Add),
                word(NativeOp::Print),
            ],
            depth,
        ) == (Outcome {
            state: State {
                stack: st.stack.push(wrap(2 * n)),
                dict: st.dict,
                output: st.output.push(wrap(2 * n)),
            },
            result: Ok(()),
        }),
        i64::MIN <= 2 * n <= i64::MAX ==> wrap(2 * n) == 2 * n,
{
    let v = wrap(2 * n);
    let none = Seq::<FrameView>::empty();
    let end = Seq::<TokenView>::empty();
    let t4 = seq![word(NativeOp::Print)] + end;
    let t3 = seq![word(NativeOp::Add)] + t4;
    let t2 = seq![word(NativeOp::Dup)] + t3;
    let t1 = seq![TokenView::Number(n)] + t2;
    assert(t1 =~= seq![
        TokenView::Number(n),
        word(NativeOp::Dup),
        word(NativeOp::Add),
        word(NativeOp::Print),
    ]);
    let s1 = State { stack: st.stack.push(n), ..st };
    let s2 = State { stack: s1.stack.push(n), ..s1 };
    let s3 = State { stack: st.stack.push(v), ..st };
    lemma_first_then_rest(st, none, TokenView::Number(n), t2, depth);
    lemma_first_then_rest(s1, none, word(NativeOp::Dup), t3, depth);
    lemma_first_then_rest(s2, none, word(NativeOp::Add), t4, depth);
    lemma_first_then_rest(s3, none, word(NativeOp::Print), end, depth);
    assert(s2.stack.take(s2.stack.len() - 2) =~= st.stack);
    lemma_wrap_in_range(2 * n);
}

/// A comparison has a value on every pair, and it is 1 where the
/// relation holds and 0 where it does not.
pub proof fn law_comparisons_give_flags(op: NativeOp, a: i64, b: i64)
    requires
        op is Equal || op is NotEqual || op is Less || op is Greater,
    ensures
        binary_value(op, a, b) is Some,
        binary_value(op, a, b) == Some(0i64) || binary_value(op, a, b) == Some(1i64),
        binary_value(NativeOp::Equal, a, b) == Some(flag(a == b)),
        binary_value(NativeOp::NotEqual, a, b) == Some(flag(a != b)),
        binary_value(NativeOp::Less, a, b) == Some(flag(a < b)),
        binary_value(NativeOp::Greater, a, b) == Some(flag(a > b)),
{
}

/// A built-in word that finds fewer values than it needs fails with
/// `StackUnderflow` and leaves the stack, the dictionary and the printed
/// values as they were, at any depth.
pub proof fn law_underflow_changes_nothing(st: State, op: NativeOp, depth: nat)
    requires
        st.stack.len() < operands(op),
    ensures
        run_definition(st, DefinitionView::Native(op), depth) == (Outcome {
            state: st,
            result: Err(ErrorView::StackUnderflow),
        }),
{
}

/// Whatever fails, a built-in word that fails changes nothing.
pub proof fn law_failed_word_changes_nothing(st: State, op: NativeOp)
    requires
        apply_native(op, st).result is Err,
    ensures
        apply_native(op, st).state == st,
{
}

/// `if` on an empty stack fails with `StackUnderflow` and changes nothing.
pub proof fn law_if_needs_a_condition(st: State, frames: Seq<FrameView>, depth: nat)
    requires
        st.stack.len() == 0,
    ensures
        exec_token(st, frames, TokenView::Keyword(Keyword::If), depth) == (Step {
            state: st,
            frames,
            result: Err(ErrorView::StackUnderflow),
        }),
{
}

/// Using a user-defined word is executing its text in its place, one
/// level down: the text is tokenized against the dictionary of that
/// moment and the tokens are executed on the stack of that moment.
pub proof fn law_word_is_its_body(st: State, body: Seq<char>, depth: nat)
    ensures
        run_definition(st, DefinitionView::Tokens(body), depth + 1) == interpret(st, body, depth),
        exec_tokens(
            st,
            Seq::empty(),
            seq![TokenView::Op(DefinitionView::Tokens(body))],
            depth + 1,
        ) == interpret(st, body, depth),
{
    let token = TokenView::Op(DefinitionView::Tokens(body));
    let end = Seq::<TokenView>::empty();
    let level = (depth + 1) as nat;
    let ran = run_definition(st, DefinitionView::Tokens(body), level);
    lemma_first_then_rest(st, Seq::empty(), token, end, level);
    assert(exec_tokens(ran.state, Seq::empty(), end, level) == (Outcome {
        state: ran.state,
        result: Ok(()),
    }));
    assert(ran.result is Ok ==> ran.result->Ok_0 == ());
}

/// A line that does not tokenize executes nothing: the stack and the
/// printed values stay as they were, whatever stood before the unknown
/// word on the line.
pub proof fn law_unknown_word_runs_nothing(st: State, input: Seq<char>, depth: nat)
    requires
        lex_line(st.dict, input).result is Err,
    ensures
        interpret(st, input, depth).result == Err::<(), ErrorView>(
            lex_line(st.dict, input).result->Err_0,
        ),
        interpret(st, input, depth).state.stack == st.stack,
        interpret(st, input, depth).state.output == st.output,
{
}

/// Tokenizing fails only with `WordNotDefined`.
pub proof fn law_lexing_fails_on_unknown_words_only(
    dict: Map<Seq<char>, DefinitionView>,
    tokens: Seq<TokenView>,
    gathered: Option<Seq<Seq<char>>>,
    rest: Seq<Seq<char>>,
)
    ensures
        lex_words(dict, tokens, gathered, rest).result is Err ==> lex_words(
            dict,
            tokens,
            gathered,
            rest,
        ).result->Err_0 is WordNotDefined,
    decreases rest.len(),
{
    if rest.len() > 0 {
        let w = rest[0];
        let after = rest.drop_first();
        match gathered {
            Some(seen) => {
                if w == seq![';'] {
                    law_lexing_fails_on_unknown_words_only(define(dict, seen), tokens, None, after);
                } else {
                    law_lexing_fails_on_unknown_words_only(dict, tokens, Some(seen.push(w)), after);
                }
            },
            None => {
                match resolve(dict, w) {
                    Some(token) => {
                        law_lexing_fails_on_unknown_words_only(
                            dict,
                            tokens.push(token),
                            None,
                            after,
                        );
                    },
                    None => {
                        if w == seq![':'] {
                            law_lexing_fails_on_unknown_words_only(
                                dict,
                                tokens,
                                Some(Seq::empty()),
                                after,
                            );
                        }
                    },
                }
            },
        }
    }
}

/// Once a definition has closed, its name stands for the new body,
/// whatever it stood for before, a built-in word included. A name that
/// writes a number is still read as that number.
pub proof fn law_definition_overwrites(
    dict: Map<Seq<char>, DefinitionView>,
    name: Seq<char>,
    body: Seq<Seq<char>>,
)
    ensures
        define(dict, seq![name] + body) == dict.insert(
            name,
            DefinitionView::Tokens(joined(body, seq![' '])),
        ),
        number_value(name) is None ==> resolve(define(dict, seq![name] + body), name) == Some(
            TokenView::Op(DefinitionView::Tokens(joined(body, seq![' ']))),
        ),
{
    let gathered = seq![name] + body;
    assert(gathered.skip(1) =~= body);
}

/// The words between `:` and the next `;` make no tokens: they are
/// gathered, and at the `;` the definition closes on them. The words
/// after it are read against the dictionary that holds the definition.
pub proof fn law_definition_block(
    dict: Map<Seq<char>, DefinitionView>,
    tokens: Seq<TokenView>,
    seen: Seq<Seq<char>>,
    block: Seq<Seq<char>>,
    rest: Seq<Seq<char>>,
)
    requires
        forall|i: int| 0 <= i < block.len() ==> block[i] != seq![';'],
    ensures
        lex_words(dict, tokens, Some(seen), block + seq![seq![';']] + rest) == lex_words(
            define(dict, seen + block),
            tokens,
            None,
            rest,
        ),
    decreases block.len(),
{
    let line = block + seq![seq![';']] + rest;
    if block.len() == 0 {
        assert(line.drop_first() =~= rest);
    } else {
        let w = block[0];
        assert(line.drop_first() =~= block.drop_first() + seq![seq![';']] + rest);
        assert(seen.push(w) + block.drop_first() =~= seen + block);
        law_definition_block(dict, tokens, seen.push(w), block.drop_first(), rest);
    }
}

/// A definition and then its name, on one line: the name is defined,
/// whatever it stood for before, and its use is a token that holds the
/// new body. The line must be able to open a definition (`:` is not
/// itself defined), the name must not write a number, and neither the
/// name nor a word of the body may be `;`.
pub proof fn law_define_then_use(
    dict: Map<Seq<char>, DefinitionView>,
    tokens: Seq<TokenView>,
    name: Seq<char>,
    body: Seq<Seq<char>>,
)
    requires
        resolve(dict, seq![':']) is None,
        number_value(name) is None,
        name != seq![';'],
        forall|i: int| 0 <= i < body.len() ==> body[i] != seq![';'],
    ensures
        lex_words(
            dict,
            tokens,
            None,
            seq![seq![':'], name] + body + seq![seq![';'], name],
        ) == (LexOutcome {
            dict: dict.insert(name, DefinitionView::Tokens(joined(body, seq![' ']))),
            result: Ok(
                tokens.push(TokenView::Op(DefinitionView::Tokens(joined(body, seq![' '])))),
            ),
        }),
{
    let line = seq![seq![':'], name] + body + seq![seq![';'], name];
    let block = seq![name] + body;
    let rest = seq![name];
    let defined = define(dict, block);
    assert(line.drop_first() =~= block + seq![seq![';']] + rest);
    assert(Seq::<Seq<char>>::empty() + block =~= block);
    law_definition_block(dict, tokens, Seq::empty(), block, rest);
    law_definition_overwrites(dict, name, body);
    assert(rest.drop_first() =~= Seq::<Seq<char>>::empty());
    assert(lex_words(defined, tokens, None, rest) == lex_words(
        defined,
        tokens.push(resolve(defined, name)->Some_0),
        None,
        rest.drop_first(),
    ));
}

/// Whether no token of the sequence is a keyword.
pub open spec fn plain(tokens: Seq<TokenView>) -> bool {
    forall|i: int| 0 <= i < tokens.len() ==> !(#[trigger] tokens[i] is Keyword)
}

/// While the chosen branch of the innermost conditional is being read,
/// numbers and words are gathered in it and nothing else happens.
pub proof fn lemma_branch_is_gathered(
    st: State,
    below: Seq<FrameView>,
    top: FrameView,
    body: Seq<TokenView>,
    rest: Seq<TokenView>,
    depth: nat,
)
    requires
        plain(body),
        top.capture,
    ensures
        exec_tokens(st, below.push(top), body + rest, depth) == exec_tokens(
            st,
            below.push(FrameView { tokens: top.tokens + body, ..top }),
            rest,
            depth,
        ),
    decreases body.len(),
{
    let frames = below.push(top);
    assert(frames.drop_last() =~= below);
    if body.len() > 0 {
        let first = body[0];
        let others = body.drop_first();
        let grown = FrameView { tokens: top.tokens.push(first), ..top };
        assert(body + rest =~= seq![first] + (others + rest));
        assert(grown.tokens + others =~= top.tokens + body);
        assert(plain(others));
        lemma_first_then_rest(st, frames, first, others + rest, depth);
        lemma_branch_is_gathered(st, below, grown, others, rest, depth);
    }
}

/// While the other branch of the innermost conditional is being read,
/// numbers and words are skipped.
pub proof fn lemma_branch_is_skipped(
    st: State,
    below: Seq<FrameView>,
    top: FrameView,
    body: Seq<TokenView>,
    rest: Seq<TokenView>,
    depth: nat,
)
    requires
        plain(body),
        !top.capture,
    ensures
        exec_tokens(st, below.push(top), body + rest, depth) == exec_tokens(
            st,
            below.push(top),
            rest,
            depth,
        ),
    decreases body.len(),
{
    let frames = below.push(top);
    if body.len() > 0 {
        let first = body[0];
        let others = body.drop_first();
        assert(body + rest =~= seq![first] + (others + rest));
        assert(plain(others));
        lemma_first_then_rest(st, frames, first, others + rest, depth);
        lemma_branch_is_skipped(st, below, top, others, rest, depth);
    }
}

/// A conditional whose branches hold numbers and words only, wherever
/// it stands: `if` takes the top of the stack, and at `then` the first
/// branch is executed where that value is not zero, the second where it
/// is zero, one level down and on the stack itself. The other branch does
/// nothing, and the conditionals that enclose this one are as they were
/// when the tokens after it are reached: an inner conditional is done
/// before the outer one goes on.
pub proof fn law_conditional_selects_branch(
    st: State,
    frames: Seq<FrameView>,
    first: Seq<TokenView>,
    second: Seq<TokenView>,
    rest: Seq<TokenView>,
    depth: nat,
)
    requires
        plain(first),
        plain(second),
        st.stack.len() > 0,
        depth > 0,
    ensures
        exec_tokens(
            st,
            frames,
            seq![TokenView::Keyword(Keyword::If)] + first + seq![TokenView::Keyword(Keyword::Else)]
                + second + seq![TokenView::Keyword(Keyword::Then)] + rest,
            depth,
        ) == ({
            let ran = exec_tokens(
                State { stack: st.stack.drop_last(), ..st },
                Seq::empty(),
                if st.stack.last() != 0 {
                    first
                } else {
                    second
                },
                (depth - 1) as nat,
            );
            match ran.result {
                Ok(()) => exec_tokens(ran.state, frames, rest, depth),
                Err(e) => ran,
            }
        }),
{
    let kw_if = TokenView::Keyword(Keyword::If);
    let kw_else = TokenView::Keyword(Keyword::Else);
    let kw_then = TokenView::Keyword(Keyword::Then);
    let end = Seq::<TokenView>::empty();
    let taken = st.stack.last() != 0;
    let popped = State { stack: st.stack.drop_last(), ..st };
    let opened = FrameView { taken, capture: taken, tokens: Seq::empty() };
    let t4 = seq![kw_then] + rest;
    let t3 = second + t4;
    let t2 = seq![kw_else] + t3;
    let t1 = first + t2;
    assert(seq![kw_if] + first + seq![kw_else] + second + seq![kw_then] + rest =~= seq![kw_if]
        + t1);
    lemma_first_then_rest(st, frames, kw_if, t1, depth);
    let chosen = if taken { first } else { second };
    let at_else = FrameView { tokens: if taken { first } else { end }, ..opened };
    let after_else = FrameView { capture: !taken, ..at_else };
    let at_then = FrameView { tokens: chosen, ..after_else };
    if taken {
        lemma_branch_is_gathered(popped, frames, opened, first, t2, depth);
    } else {
        lemma_branch_is_skipped(popped, frames, opened, first, t2, depth);
    }
    assert(frames.push(at_else).drop_last() =~= frames);
    lemma_first_then_rest(popped, frames.push(at_else), kw_else, t3, depth);
    if taken {
        lemma_branch_is_skipped(popped, frames, after_else, second, t4, depth);
    } else {
        lemma_branch_is_gathered(popped, frames, after_else, second, t4, depth);
    }
    assert(frames.push(at_then).drop_last() =~= frames);
    lemma_first_then_rest(popped, frames.push(at_then), kw_then, rest, depth);
}

/// Whether the text can stand as one word of a line: it is not empty and
/// holds no whitespace.
pub open spec fn is_word(w: Seq<char>) -> bool {
    w.len() > 0 && forall|i: int| 0 <= i < w.len() ==> !is_space(#[trigger] w[i])
}

/// Whether each text of the sequence can stand as one word.
pub open spec fn all_words(ws: Seq<Seq<char>>) -> bool {
    forall|i: int| 0 <= i < ws.len() ==> is_word(#[trigger] ws[i])
}

/// Every word of a text is a word: not empty, and free of whitespace. A
/// text that ends in a character that is no whitespace has a last word.
pub proof fn law_words_are_words(s: Seq<char>)
    ensures
        all_words(words(s)),
        s.len() > 0 && !is_space(s.last()) ==> words(s).len() > 0,
    decreases s.len(),
{
    if s.len() > 0 {
        let front = s.drop_last();
        let before = words(front);
        law_words_are_words(front);
        if s.len() >= 2 && !is_space(s.last()) && !is_space(s[s.len() - 2]) && before.len() > 0 {
            assert(is_word(before.last().push(s.last())));
        }
    }
}

/// A word written after a text that is empty or ends in whitespace is one
/// more word of it.
pub proof fn lemma_one_more_word(s: Seq<char>, w: Seq<char>)
    requires
        s.len() == 0 || is_space(s.last()),
        is_word(w),
    ensures
        words(s + w) == words(s).push(w),
    decreases w.len(),
{
    let c = w.last();
    let shorter = w.drop_last();
    assert((s + w).drop_last() =~= s + shorter);
    if shorter.len() == 0 {
        assert(w =~= seq![c]);
    } else {
        assert(is_word(shorter));
        lemma_one_more_word(s, shorter);
        let before = words(s).push(shorter);
        assert(before.last().push(c) =~= w);
    }
}

/// Words joined by single spaces split into the same words again: the
/// body that a definition stores is read back word for word.
pub proof fn law_joined_words_split_back(ws: Seq<Seq<char>>)
    requires
        all_words(ws),
    ensures
        words(joined(ws, seq![' '])) == ws,
    decreases ws.len(),
{
    if ws.len() == 1 {
        lemma_one_more_word(Seq::empty(), ws[0]);
    } else if ws.len() > 1 {
        let front = ws.drop_last();
        assert(all_words(front));
        law_joined_words_split_back(front);
        let spaced = joined(front, seq![' ']) + seq![' '];
        assert(spaced.drop_last() =~= joined(front, seq![' ']));
        lemma_one_more_word(spaced, ws.last());
    }
}

/// Using a word defined with the body `body` tokenizes those same words,
/// against the dictionary of the moment of use, and executes the tokens
/// one level down.
pub proof fn law_defined_word_reads_its_words(st: State, body: Seq<Seq<char>>, depth: nat)
    requires
        all_words(body),
    ensures
        run_definition(st, DefinitionView::Tokens(joined(body, seq![' '])), depth + 1) == ({
            let lexed = lex_words(st.dict, Seq::empty(), None, body);
            let entered = State { dict: lexed.dict, ..st };
            match lexed.result {
                Ok(tokens) => exec_tokens(entered, Seq::empty(), tokens, depth),
                Err(e) => Outcome { state: entered, result: Err(e) },
            }
        }),
{
    law_joined_words_split_back(body);
}

/// The tokens that words resolve to, one for one.
pub open spec fn resolved(dict: Map<Seq<char>, DefinitionView>, ws: Seq<Seq<char>>) -> Seq<
    TokenView,
> {
    Seq::new(ws.len(), |i: int| resolve(dict, ws[i])->Some_0)
}

/// Outside a definition, a run of words that each resolve tokenizes to
/// their tokens in order and leaves the dictionary as it was.
pub proof fn law_resolving_words_tokenize(
    dict: Map<Seq<char>, DefinitionView>,
    tokens: Seq<TokenView>,
    ws: Seq<Seq<char>>,
)
    requires
        forall|i: int| 0 <= i < ws.len() ==> resolve(dict, #[trigger] ws[i]) is Some,
    ensures
        lex_words(dict, tokens, None, ws) == (LexOutcome {
            dict,
            result: Ok(tokens + resolved(dict, ws)),
        }),
    decreases ws.len(),
{
    if ws.len() > 0 {
        let token = resolve(dict, ws[0])->Some_0;
        let after = ws.drop_first();
        law_resolving_words_tokenize(dict, tokens.push(token), after);
        assert(tokens.push(token) + resolved(dict, after) =~= tokens + resolved(dict, ws));
    }
}

/// In the dictionary of a new machine each built-in name resolves to its
/// word.
pub proof fn law_builtin_names_resolve()
    ensures
        resolve(builtins(), seq!['+']) == Some(word(NativeOp::Add)),
        resolve(builtins(), seq!['-']) == Some(word(NativeOp::Sub)),
        resolve(builtins(), seq!['*']) == Some(word(NativeOp::Mul)),
        resolve(builtins(), seq!['/']) == Some(word(NativeOp::Div)),
        resolve(builtins(), seq!['d', 'u', 'p']) == Some(word(NativeOp::Dup)),
        resolve(builtins(), seq!['.']) == Some(word(NativeOp::Print)),
        resolve(builtins(), seq!['d', 'r', 'o', 'p']) == Some(word(NativeOp::Drop)),
        resolve(builtins(), seq!['s', 'w', 'a', 'p']) == Some(word(NativeOp::Swap)),
        resolve(builtins(), seq!['=']) == Some(word(NativeOp::Equal)),
        resolve(builtins(), seq!['<', '>']) == Some(word(NativeOp::NotEqual)),
        resolve(builtins(), seq!['<']) == Some(word(NativeOp::Less)),
        resolve(builtins(), seq!['>']) == Some(word(NativeOp::Greater)),
{
    lemma_no_number(seq!['+']);
    lemma_no_number(seq!['-']);
    lemma_no_number(seq!['*']);
    lemma_no_number(seq!['/']);
    lemma_no_number(seq!['d', 'u', 'p']);
    lemma_no_number(seq!['.']);
    lemma_no_number(seq!['d', 'r', 'o', 'p']);
    lemma_no_number(seq!['s', 'w', 'a', 'p']);
    lemma_no_number(seq!['=']);
    lemma_no_number(seq!['<', '>']);
    lemma_no_number(seq!['<']);
    lemma_no_number(seq!['>']);
}

/// A word whose last character is no digit writes no number.
pub proof fn lemma_no_number(w: Seq<char>)
    requires
        w.len() > 0,
        !is_digit(w.last()),
    ensures
        number_value(w) is None,
{
}

/// A line of two numbers, the name of a two-operand word that has a
/// value on them, and `.`: the value is pushed and printed, and nothing
/// else changes.
pub proof fn law_line_prints_binary_value(
    st: State,
    input: Seq<char>,
    first: Seq<char>,
    second: Seq<char>,
    name: Seq<char>,
    op: NativeOp,
    depth: nat,
)
    requires
        words(input) == seq![first, second, name, seq!['.']],
        number_value(first) is Some,
        number_value(second) is Some,
        resolve(st.dict, name) == Some(word(op)),
        resolve(st.dict, seq!['.']) == Some(word(NativeOp::Print)),
        is_binary(op),
        binary_value(op, number_value(first)->Some_0, number_value(second)->Some_0) is Some,
    ensures
        interpret(st, input, depth) == ({
            let v = binary_value(
                op,
                number_value(first)->Some_0,
                number_value(second)->Some_0,
            )->Some_0;
            Outcome {
                state: State { stack: st.stack.push(v), dict: st.dict, output: st.output.push(v) },
                result: Ok(()),
            }
        }),
{
    let a = number_value(first)->Some_0;
    let b = number_value(second)->Some_0;
    let ws = words(input);
    let none = Seq::<TokenView>::empty();
    law_resolving_words_tokenize(st.dict, none, ws);
    assert(none + resolved(st.dict, ws) =~= seq![
        TokenView::Number(a),
        TokenView::Number(b),
        word(op),
        word(NativeOp::Print),
    ]);
    law_binary_word_prints_its_value(st, op, a, b, depth);
}

/// The digits of a number are digits, at least one, and write that number.
pub proof fn lemma_digits_write_the_number(m: nat)
    ensures
        digits_of(m).len() > 0,
        all_digits(digits_of(m)),
        digits_value(digits_of(m)) == m,
    decreases m,
{
    if m >= 10 {
        let front = digits_of(m / 10);
        lemma_digits_write_the_number(m / 10);
        assert(digits_of(m).drop_last() =~= front);
        lemma_digit_char((m % 10) as int);
    } else {
        assert(digits_of(m).drop_last() =~= Seq::<char>::empty());
        assert(digits_value(Seq::<char>::empty()) == 0);
        lemma_digit_char(m as int);
    }
}

/// The character of a digit is a digit, and stands for it.
pub proof fn lemma_digit_char(d: int)
    requires
        0 <= d <= 9,
    ensures
        is_digit(digit_char(d)),
        digit_char(d) as u32 - 0x30 == d,
{
}

/// The decimal text of a 64-bit number is read back as that number: what
/// the machine prints, it can read.
pub proof fn law_decimal_reads_back(n: i64)
    ensures
        number_value(decimal(n as int)) == Some(n),
{
    let w = decimal(n as int);
    if n < 0 {
        let digits = digits_of((-n) as nat);
        lemma_digits_write_the_number((-n) as nat);
        assert(w.subrange(1, w.len() as int) =~= digits);
    } else {
        lemma_digits_write_the_number(n as nat);
    }
}

} // verus!
