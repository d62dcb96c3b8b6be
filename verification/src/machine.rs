//! The machine: a stack, a dictionary and the printed values, with the
//! meaning of a sequence of tokens and the functions that carry it out.

use vstd::prelude::*;
use crate::dictionary::Dictionary;
use crate::lexer::{lex_line, tokenize};
use crate::model::{
    Definition, DefinitionView, ErrorView, ForthError, Keyword, NativeOp, Outcome, State, Token,
    TokenView, result_view, token_views,
};
use crate::native::{apply, apply_native};
use crate::text::{lines, print_lines};

verus! {

/// How deep user-defined words and conditional bodies may nest. Each use of
/// a user-defined word, and each body that a `then` closes, runs one level
/// below the tokens that hold it.
pub const MAX_DEPTH: usize = 128;

/// An open conditional, as the model sees it.
pub struct FrameView {
    /// Whether the condition was true (not zero).
    pub taken: bool,
    /// Whether the tokens that arrive now belong to the chosen branch.
    pub capture: bool,
    /// The tokens of the chosen branch gathered so far.
    pub tokens: Seq<TokenView>,
}

/// An open conditional: the tokens of its chosen branch are gathered until
/// its `then` and run only there.
pub struct Frame {
    pub taken: bool,
    pub capture: bool,
    pub tokens: Vec<Token>,
}

impl View for Frame {
    type V = FrameView;

    open spec fn view(&self) -> FrameView {
        FrameView { taken: self.taken, capture: self.capture, tokens: token_views(self.tokens@) }
    }
}

/// The views of a stack of open conditionals, innermost last.
pub open spec fn frame_views(frames: Seq<Frame>) -> Seq<FrameView> {
    Seq::new(frames.len(), |i: int| frames[i]@)
}

/// What one token leaves: the state, the open conditionals, and whether it
/// failed.
pub struct Step {
    pub state: State,
    pub frames: Seq<FrameView>,
    pub result: Result<(), ErrorView>,
}

/// `if`: takes the top of the stack as the condition, at once, and opens a
/// conditional that gathers its first branch where the condition is not
/// zero, its second where it is zero.
pub open spec fn open_conditional(st: State, frames: Seq<FrameView>) -> Step {
    if st.stack.len() == 0 {
        Step { state: st, frames, result: Err(ErrorView::StackUnderflow) }
    } else {
        let taken = st.stack.last() != 0;
        Step {
            state: State { stack: st.stack.drop_last(), ..st },
            frames: frames.push(FrameView { taken, capture: taken, tokens: Seq::empty() }),
            result: Ok(()),
        }
    }
}

/// Running a definition with `depth` levels of nesting left. A built-in
/// word acts on the stack. A user-defined word has its text tokenized
/// against the dictionary as it stands now, and the tokens executed one
/// level down; with no level left it fails and changes nothing.
pub open spec fn run_definition(st: State, def: DefinitionView, depth: nat) -> Outcome
    decreases depth, 0nat, 0nat,
{
    match def {
        DefinitionView::Native(op) => apply_native(op, st),
        DefinitionView::Tokens(body) => if depth == 0 {
            Outcome { state: st, result: Err(ErrorView::DepthExceeded) }
        } else {
            let lexed = lex_line(st.dict, body);
            let entered = State { dict: lexed.dict, ..st };
            match lexed.result {
                Ok(tokens) => exec_tokens(entered, Seq::empty(), tokens, (depth - 1) as nat),
                Err(e) => Outcome { state: entered, result: Err(e) },
            }
        },
    }
}

/// One token. With no conditional open, a number is pushed and a word is
/// run. Inside a conditional, numbers and words are gathered while its
/// chosen branch is being read and skipped otherwise; `else` changes
/// sides; `then` closes the conditional and executes what was gathered,
/// one level down and at once, whatever encloses it.
pub open spec fn exec_token(st: State, frames: Seq<FrameView>, token: TokenView, depth: nat) -> Step
    decreases depth, 0nat, 1nat,
{
    match token {
        TokenView::Keyword(Keyword::If) => open_conditional(st, frames),
        TokenView::Keyword(Keyword::Do) => Step {
            state: st,
            frames,
            result: Err(ErrorView::NotImplemented),
        },
        _ => if frames.len() == 0 {
            match token {
                TokenView::Number(n) => Step {
                    state: State { stack: st.stack.push(n), ..st },
                    frames,
                    result: Ok(()),
                },
                TokenView::Op(def) => {
                    let ran = run_definition(st, def, depth);
                    Step { state: ran.state, frames, result: ran.result }
                },
                _ => Step { state: st, frames, result: Err(ErrorView::UnbalancedIf) },
            }
        } else {
            let top = frames.last();
            let below = frames.drop_last();
            match token {
                TokenView::Keyword(Keyword::Else) => Step {
                    state: st,
                    frames: below.push(FrameView { capture: !top.taken, ..top }),
                    result: Ok(()),
                },
                TokenView::Keyword(_) => if depth == 0 {
                    Step { state: st, frames: below, result: Err(ErrorView::DepthExceeded) }
                } else {
                    let ran = exec_tokens(st, Seq::empty(), top.tokens, (depth - 1) as nat);
                    Step { state: ran.state, frames: below, result: ran.result }
                },
                _ => Step {
                    state: st,
                    frames: if top.capture {
                        below.push(FrameView { tokens: top.tokens.push(token), ..top })
                    } else {
                        frames
                    },
                    result: Ok(()),
                },
            }
        },
    }
}

/// A sequence of tokens, from left to right, stopping at the first that
/// fails. What earlier tokens did stays done. Conditionals still open at
/// the end are dropped with what they gathered.
pub open spec fn exec_tokens(
    st: State,
    frames: Seq<FrameView>,
    tokens: Seq<TokenView>,
    depth: nat,
) -> Outcome
    decreases depth, tokens.len(), 2nat,
{
    if tokens.len() == 0 {
        Outcome { state: st, result: Ok(()) }
    } else {
        let step = exec_token(st, frames, tokens[0], depth);
        match step.result {
            Ok(()) => exec_tokens(step.state, step.frames, tokens.drop_first(), depth),
            Err(e) => Outcome { state: step.state, result: Err(e) },
        }
    }
}

/// A line of text: tokenized as a whole, then executed with `depth` levels
/// left. Where tokenizing fails nothing is executed.
pub open spec fn interpret(st: State, input: Seq<char>, depth: nat) -> Outcome {
    let lexed = lex_line(st.dict, input);
    let entered = State { dict: lexed.dict, ..st };
    match lexed.result {
        Ok(tokens) => exec_tokens(entered, Seq::empty(), tokens, depth),
        Err(e) => Outcome { state: entered, result: Err(e) },
    }
}

/// The dictionary of a new machine: the twelve built-in words.
pub open spec fn builtins() -> Map<Seq<char>, DefinitionView> {
    Map::empty()
        .insert(seq!['+'], DefinitionView::Native(NativeOp::Add))
        .insert(seq!['-'], DefinitionView::Native(NativeOp::Sub))
        .insert(seq!['*'], DefinitionView::Native(NativeOp::Mul))
        .insert(seq!['/'], DefinitionView::Native(NativeOp::Div))
        .insert(seq!['d', 'u', 'p'], DefinitionView::Native(NativeOp::Dup))
        .insert(seq!['.'], DefinitionView::Native(NativeOp::Print))
        .insert(seq!['d', 'r', 'o', 'p'], DefinitionView::Native(NativeOp::Drop))
        .insert(seq!['s', 'w', 'a', 'p'], DefinitionView::Native(NativeOp::Swap))
        .insert(seq!['='], DefinitionView::Native(NativeOp::Equal))
        .insert(seq!['<', '>'], DefinitionView::Native(NativeOp::NotEqual))
        .insert(seq!['<'], DefinitionView::Native(NativeOp::Less))
        .insert(seq!['>'], DefinitionView::Native(NativeOp::Greater))
}

/// The interpreter's whole state.
pub struct Machine {
    /// The values, top last.
    pub stack: Vec<i64>,
    /// The words and what they stand for.
    pub definitions: Dictionary,
    /// The values that `.` printed, oldest first.
    pub output: Vec<i64>,
}

impl View for Machine {
    type V = State;

    open spec fn view(&self) -> State {
        State { stack: self.stack@, dict: self.definitions@, output: self.output@ }
    }
}

impl Machine {
    /// A machine with an empty stack, nothing printed, and the built-in
    /// words.
    pub fn new() -> (machine: Machine)
        ensures
            machine@ == (State {
                stack: Seq::empty(),
                dict: builtins(),
                output: Seq::empty(),
            }),
            machine.definitions.well_formed(),
    {
        let mut definitions = Dictionary::new();
        proof {
            reveal_strlit("+");
            reveal_strlit("-");
            reveal_strlit("*");
            reveal_strlit("/");
            reveal_strlit("dup");
            reveal_strlit(".");
            reveal_strlit("drop");
            reveal_strlit("swap");
            reveal_strlit("=");
            reveal_strlit("<>");
            reveal_strlit("<");
            reveal_strlit(">");
            assert("+"@ =~= seq!['+']);
            assert("-"@ =~= seq!['-']);
            assert("*"@ =~= seq!['*']);
            assert("/"@ =~= seq!['/']);
            assert("dup"@ =~= seq!['d', 'u', 'p']);
            assert("."@ =~= seq!['.']);
            assert("drop"@ =~= seq!['d', 'r', 'o', 'p']);
            assert("swap"@ =~= seq!['s', 'w', 'a', 'p']);
            assert("="@ =~= seq!['=']);
            assert("<>"@ =~= seq!['<', '>']);
            assert("<"@ =~= seq!['<']);
            assert(">"@ =~= seq!['>']);
        }
        definitions.insert_native("+", NativeOp::Add);
        definitions.insert_native("-", NativeOp::Sub);
        definitions.insert_native("*", NativeOp::Mul);
        definitions.insert_native("/", NativeOp::Div);
        definitions.insert_native("dup", NativeOp::Dup);
        definitions.insert_native(".", NativeOp::Print);
        definitions.insert_native("drop", NativeOp::Drop);
        definitions.insert_native("swap", NativeOp::Swap);
        definitions.insert_native("=", NativeOp::Equal);
        definitions.insert_native("<>", NativeOp::NotEqual);
        definitions.insert_native("<", NativeOp::Less);
        definitions.insert_native(">", NativeOp::Greater);
        Machine { stack: Vec::new(), definitions, output: Vec::new() }
    }

    /// Tokenizes a line against the dictionary, installing the definitions
    /// that the line closes. The stack and the printed values are not
    /// touched, whether or not the line tokenizes.
    pub fn lex(&mut self, input: &str) -> (r: Result<Vec<Token>, ForthError>)
        ensures
            final(self)@ == (State { dict: lex_line(old(self)@.dict, input@).dict, ..old(self)@ }),
            old(self).definitions.well_formed() ==> final(self).definitions.well_formed(),
            match r {
                Ok(tokens) => lex_line(old(self)@.dict, input@).result == Ok::<
                    Seq<TokenView>,
                    ErrorView,
                >(token_views(tokens@)),
                Err(e) => lex_line(old(self)@.dict, input@).result == Err::<
                    Seq<TokenView>,
                    ErrorView,
                >(e@),
            },
    {
        tokenize(&mut self.definitions, input)
    }

    /// Executes the tokens with [`MAX_DEPTH`] levels of nesting.
    pub fn exec(&mut self, tokens: Vec<Token>) -> (r: Result<(), ForthError>)
        ensures
            (Outcome { state: final(self)@, result: result_view(r) }) == exec_tokens(
                old(self)@,
                Seq::empty(),
                token_views(tokens@),
                MAX_DEPTH as nat,
            ),
            old(self).definitions.well_formed() ==> final(self).definitions.well_formed(),
    {
        self.exec_at(tokens, MAX_DEPTH)
    }

    /// Runs a definition with [`MAX_DEPTH`] levels of nesting.
    pub fn run(&mut self, definition: Definition) -> (r: Result<(), ForthError>)
        ensures
            (Outcome { state: final(self)@, result: result_view(r) }) == run_definition(
                old(self)@,
                definition@,
                MAX_DEPTH as nat,
            ),
            old(self).definitions.well_formed() ==> final(self).definitions.well_formed(),
    {
        self.run_at(&definition, MAX_DEPTH)
    }

    /// What the machine has written so far: the decimal text of each
    /// printed value, each followed by a newline.
    pub fn printed(&self) -> (text: String)
        ensures
            text@ == lines(self@.output),
    {
        print_lines(&self.output)
    }

    /// Tokenizes a line and, where that succeeds, executes its tokens.
    pub fn eval(&mut self, line: &str) -> (r: Result<(), ForthError>)
        ensures
            (Outcome { state: final(self)@, result: result_view(r) }) == interpret(
                old(self)@,
                line@,
                MAX_DEPTH as nat,
            ),
            old(self).definitions.well_formed() ==> final(self).definitions.well_formed(),
    {
        match self.lex(line) {
            Ok(tokens) => self.exec(tokens),
            Err(e) => Err(e),
        }
    }

    /// Executes the tokens with `depth` levels of nesting left.
    pub fn exec_at(&mut self, tokens: Vec<Token>, depth: usize) -> (r: Result<(), ForthError>)
        ensures
            (Outcome { state: final(self)@, result: result_view(r) }) == exec_tokens(
                old(self)@,
                Seq::empty(),
                token_views(tokens@),
                depth as nat,
            ),
            old(self).definitions.well_formed() ==> final(self).definitions.well_formed(),
        decreases depth, 2nat,
    {
        let ghost all = token_views(tokens@);
        let ghost goal = exec_tokens(old(self)@, Seq::empty(), all, depth as nat);
        let mut frames: Vec<Frame> = Vec::new();
        let mut i: usize = 0;
        proof {
            assert(all.skip(0) =~= all);
            assert(frame_views(frames@) =~= Seq::<FrameView>::empty());
        }
        while i < tokens.len()
            invariant
                i <= tokens@.len(),
                all == token_views(tokens@),
                goal == exec_tokens(old(self)@, Seq::empty(), all, depth as nat),
                old(self).definitions.well_formed() ==> self.definitions.well_formed(),
                goal == exec_tokens(self@, frame_views(frames@), all.skip(i as int), depth as nat),
            decreases tokens@.len() - i,
        {
            proof {
                assert(all.skip(i as int).drop_first() =~= all.skip(i + 1));
            }
            match self.step(&mut frames, &tokens[i], depth) {
                Ok(()) => {},
                Err(e) => {
                    return Err(e);
                },
            }
            i += 1;
        }
        Ok(())
    }

    /// Runs a definition with `depth` levels of nesting left.
    pub fn run_at(&mut self, definition: &Definition, depth: usize) -> (r: Result<(), ForthError>)
        ensures
            (Outcome { state: final(self)@, result: result_view(r) }) == run_definition(
                old(self)@,
                definition@,
                depth as nat,
            ),
            old(self).definitions.well_formed() ==> final(self).definitions.well_formed(),
        decreases depth, 0nat,
    {
        match definition {
            Definition::Native(op) => apply(*op, &mut self.stack, &mut self.output),
            Definition::Tokens(body) => {
                if depth == 0 {
                    return Err(ForthError::DepthExceeded);
                }
                match tokenize(&mut self.definitions, body.as_str()) {
                    Ok(tokens) => self.exec_at(tokens, depth - 1),
                    Err(e) => Err(e),
                }
            },
        }
    }

    /// `if`: takes the condition off the stack and opens a conditional.
    fn open_conditional(&mut self, frames: &mut Vec<Frame>) -> (r: Result<(), ForthError>)
        ensures
            (Step {
                state: final(self)@,
                frames: frame_views(final(frames)@),
                result: result_view(r),
            }) == open_conditional(old(self)@, frame_views(old(frames)@)),
            final(self).definitions == old(self).definitions,
    {
        match self.stack.pop() {
            Some(condition) => {
                let taken = condition != 0;
                let ghost before = frame_views(frames@);
                let frame = Frame { taken, capture: taken, tokens: Vec::new() };
                assert(frame@.tokens =~= Seq::<TokenView>::empty());
                frames.push(frame);
                assert(frame_views(frames@) =~= before.push(frame@));
                Ok(())
            },
            None => Err(ForthError::StackUnderflow),
        }
    }

    /// Executes one token with `depth` levels of nesting left.
    fn step(&mut self, frames: &mut Vec<Frame>, token: &Token, depth: usize) -> (r: Result<
        (),
        ForthError,
    >)
        ensures
            (Step {
                state: final(self)@,
                frames: frame_views(final(frames)@),
                result: result_view(r),
            }) == exec_token(old(self)@, frame_views(old(frames)@), token@, depth as nat),
            old(self).definitions.well_formed() ==> final(self).definitions.well_formed(),
        decreases depth, 1nat,
    {
        let ghost before = frame_views(frames@);
        match token {
            Token::Keyword(Keyword::If) => {
                return self.open_conditional(frames);
            },
            Token::Keyword(Keyword::Do) => {
                return Err(ForthError::NotImplemented);
            },
            _ => {},
        }
        if frames.len() == 0 {
            return match token {
                Token::Number(n) => {
                    self.stack.push(*n);
                    Ok(())
                },
                Token::Op(def) => self.run_at(def, depth),
                Token::Keyword(_) => Err(ForthError::UnbalancedIf),
            };
        }
        let mut top = frames.pop().unwrap();
        let ghost below = frame_views(frames@);
        proof {
            assert(below =~= before.drop_last());
        }
        match token {
            Token::Keyword(Keyword::Else) => {
                top.capture = !top.taken;
                frames.push(top);
                assert(frame_views(frames@) =~= below.push(top@));
                Ok(())
            },
            Token::Keyword(_) => {
                if depth == 0 {
                    return Err(ForthError::DepthExceeded);
                }
                self.exec_at(top.tokens, depth - 1)
            },
            _ => {
                if top.capture {
                    let ghost gathered = token_views(top.tokens@);
                    top.tokens.push(token.clone());
                    assert(token_views(top.tokens@) =~= gathered.push(token@));
                }
                frames.push(top);
                assert(frame_views(frames@) =~= if top.capture {
                    below.push(top@)
                } else {
                    before
                });
                Ok(())
            },
        }
    }
}

} // verus!
