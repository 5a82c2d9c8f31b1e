//! Parser: consumes the token sequence once, left to right, maintaining a
//! pending-value stack, a mode tag naming the construct being assembled, and
//! a stack of frames for the constructs that enclose the current token
//! (blocks, parameter/argument lists, pending right-hand sides). The
//! function `spec_parse` — one `spec_step` per token — is the mathematical
//! definition of the parse; `Parser::parse` is proved to compute exactly it.
//!
//! There is deliberately no precedence table: a binary operator parses its
//! right operand by recursing into the same dispatcher, so a second operator
//! met while the right-hand side is open nests inside the right child, and
//! trees lean right in strict token order.

use vstd::prelude::*;
use crate::error::{ErrorClass, ErrorKind, SkError};
use crate::expr::{BinaryOperator, Expr, SpecExpr, expr_view, exprs_view};
use crate::token::{SpecKind, SpecToken, Token, TokenKind, TokenSpan, tokens_view};

verus! {

/// The mode tag: which multi-token construct is currently being assembled.
/// `Empty` is the initial and terminal mode; a successful reduction always
/// returns to it.
#[derive(Clone, Copy, Debug, PartialEq, Eq, Structural)]
pub enum State {
    Empty,
    ReturnExpr,
    ClassExpr,
    ClassMethods,
    PreParamFunctionExpr,
    PostParamFunctionExpr,
    PrintExpr,
    UntypedVarExpr,
    UntypedConstExpr,
    TypedVarExpr,
    TypedConstExpr,
    MutationExpr,
    ImportExpr,
    FlagExpr,
}

/// How a pending right-hand side combines with the value saved on its frame.
#[derive(Clone, Copy, Debug, PartialEq, Eq, Structural)]
pub enum Comb {
    /// Qualified identifier: `left . right`.
    Qi,
    /// Binary expression: `left op right`.
    Bin(BinaryOperator),
    /// Parameter declaration: `name : type`.
    Param,
}

/// One enclosing construct of the current token (model level). The innermost
/// frame is last.
pub enum SpecFrame {
    /// A parenthesized sub-expression, up to `)`.
    Parens,
    /// A call-argument list, up to `)`. `any` records whether a value token
    /// was seen since the last comma.
    Args { elems: Seq<SpecExpr>, any: bool },
    /// A parameter list of a function declaration, up to `)`.
    Params { elems: Seq<SpecExpr>, any: bool },
    /// Symbols of an import clause, up to `;`.
    ImportArgs { elems: Seq<SpecExpr> },
    /// Fields of a class declaration, up to `}`.
    ClassFields { elems: Seq<SpecExpr>, last_comma: bool },
    /// A `{ ... }` block: saves the outer pending stack and mode, and
    /// collects the statements the nested sub-parse completes.
    Block { stack: Seq<SpecExpr>, mode: State, stmts: Seq<SpecExpr> },
    /// A `methods Name { ... }` block collecting function declarations.
    Methods { name: SpecExpr, methods: Seq<SpecExpr> },
    /// A construct waiting for exactly one right-hand value.
    Rhs { left: SpecExpr, comb: Comb },
}

/// The parser's whole transient state between two tokens.
pub struct SpecCfg {
    pub mode: State,
    pub stack: Seq<SpecExpr>,
    pub frames: Seq<SpecFrame>,
    pub tree: Seq<SpecExpr>,
}

/// What one token does to the parser: continue, finish, or fail.
pub enum SpecStep {
    Next(SpecCfg),
    Done(Seq<SpecExpr>),
    Fail,
}

/// The initial (and terminal) parser state: mode `Empty`, everything empty.
pub open spec fn init_cfg() -> SpecCfg {
    SpecCfg { mode: State::Empty, stack: Seq::empty(), frames: Seq::empty(), tree: Seq::empty() }
}

/// Whether the token after a just-completed value continues the pending
/// right-hand side instead of closing it: a qualified-identifier separator
/// always does; an open binary expression is also continued by a further
/// operator or an opening parenthesis, which is what makes trees lean right.
pub open spec fn rhs_continues(comb: Comb, nk: SpecKind) -> bool {
    match comb {
        Comb::Qi => nk is Dot,
        Comb::Param => nk is Dot,
        Comb::Bin(_) => nk is Dot || nk is Plus || nk is Minus || nk is Star || nk is Slash
            || nk is Modulo || nk is Exponent || nk is LPar,
    }
}

/// The node a completed right-hand side builds.
pub open spec fn rhs_combined(left: SpecExpr, right: SpecExpr, comb: Comb) -> SpecExpr {
    match comb {
        Comb::Qi => SpecExpr::QualifiedIdent(Box::new(left), Box::new(right)),
        Comb::Bin(op) => SpecExpr::BinaryExpr(Box::new(left), Box::new(right), op),
        Comb::Param => SpecExpr::Parameter(Box::new(left), Box::new(right)),
    }
}

/// After a value lands on the stack: as long as the innermost frame waits
/// for a right-hand side and the next token does not continue it, pop the
/// value and the frame and push the combined node.
pub open spec fn settle(stack: Seq<SpecExpr>, frames: Seq<SpecFrame>, nk: SpecKind) -> (
    Seq<SpecExpr>,
    Seq<SpecFrame>,
)
    decreases frames.len(),
{
    if frames.len() > 0 && stack.len() > 0 && (frames.last() matches SpecFrame::Rhs { left, comb }
        && !rhs_continues(comb, nk)) {
        let left = frames.last()->Rhs_left;
        let comb = frames.last()->Rhs_comb;
        settle(
            stack.drop_last().push(rhs_combined(left, stack.last(), comb)),
            frames.drop_last(),
            nk,
        )
    } else {
        (stack, frames)
    }
}

/// Pushing a completed value: it lands on the pending stack and may close
/// pending right-hand sides.
pub open spec fn push_value(cfg: SpecCfg, v: SpecExpr, nk: SpecKind) -> SpecCfg {
    let (stack, frames) = settle(cfg.stack.push(v), cfg.frames, nk);
    SpecCfg { mode: cfg.mode, stack, frames, tree: cfg.tree }
}

/// The innermost frame that collects completed statements: a block or a
/// methods block, if any encloses the current token.
pub open spec fn capture_idx(frames: Seq<SpecFrame>) -> Option<int>
    decreases frames.len(),
{
    if frames.len() == 0 {
        None
    } else if frames.last() is Block || frames.last() is Methods {
        Some(frames.len() - 1)
    } else {
        capture_idx(frames.drop_last())
    }
}

/// A completed statement goes to the innermost enclosing block's statement
/// list, to the innermost methods block (which accepts only function
/// declarations), or — outside any block — to the output tree.
pub open spec fn emit_into(frames: Seq<SpecFrame>, tree: Seq<SpecExpr>, e: SpecExpr) -> Option<
    (Seq<SpecFrame>, Seq<SpecExpr>),
> {
    match capture_idx(frames) {
        None => Some((frames, tree.push(e))),
        Some(j) => match frames[j] {
            SpecFrame::Block { stack, mode, stmts } => Some(
                (
                    frames.update(
                        j,
                        SpecFrame::Block { stack, mode, stmts: stmts.push(e) },
                    ),
                    tree,
                ),
            ),
            SpecFrame::Methods { name, methods } => if e is FunctionExpr {
                Some(
                    (
                        frames.update(
                            j,
                            SpecFrame::Methods { name, methods: methods.push(e) },
                        ),
                        tree,
                    ),
                )
            } else {
                None
            },
            _ => None,
        },
    }
}

/// The mode-specific reduction: pops the exact number of pending values the
/// current construct requires, emits the completed statement, and returns to
/// mode `Empty`. A stack depth that does not match the construct's arity is
/// a fatal parse error (`None`).
pub open spec fn spec_reduce(cfg: SpecCfg) -> Option<SpecCfg> {
    let n = cfg.stack.len();
    let built: Option<(SpecExpr, Seq<SpecExpr>)> = match cfg.mode {
        State::ClassExpr => if n == 2 {
            Some(
                (
                    SpecExpr::ClassExpr(Box::new(cfg.stack[0]), Box::new(cfg.stack[1])),
                    Seq::empty(),
                ),
            )
        } else {
            None
        },
        State::FlagExpr => if n == 1 {
            Some((SpecExpr::FlagExpr(Box::new(cfg.stack[0])), Seq::empty()))
        } else {
            None
        },
        State::ReturnExpr => if n >= 1 {
            Some((SpecExpr::ReturnExpr(Box::new(cfg.stack.last())), cfg.stack.drop_last()))
        } else {
            None
        },
        State::PrintExpr => if n >= 1 {
            Some((SpecExpr::PrintExpr(Box::new(cfg.stack.last())), cfg.stack.drop_last()))
        } else {
            None
        },
        State::ImportExpr => if n == 2 {
            Some(
                (
                    SpecExpr::ImportExpr(Box::new(cfg.stack[0]), Box::new(cfg.stack[1])),
                    Seq::empty(),
                ),
            )
        } else {
            None
        },
        State::UntypedVarExpr => if n == 2 {
            Some(
                (
                    SpecExpr::VariableExpr(Box::new(cfg.stack[0]), None, Box::new(cfg.stack[1])),
                    Seq::empty(),
                ),
            )
        } else {
            None
        },
        State::UntypedConstExpr => if n == 2 {
            Some(
                (
                    SpecExpr::ConstExpr(Box::new(cfg.stack[0]), None, Box::new(cfg.stack[1])),
                    Seq::empty(),
                ),
            )
        } else {
            None
        },
        State::TypedVarExpr => if n == 3 {
            Some(
                (
                    SpecExpr::VariableExpr(
                        Box::new(cfg.stack[0]),
                        Some(Box::new(cfg.stack[1])),
                        Box::new(cfg.stack[2]),
                    ),
                    Seq::empty(),
                ),
            )
        } else {
            None
        },
        State::TypedConstExpr => if n == 3 {
            Some(
                (
                    SpecExpr::ConstExpr(
                        Box::new(cfg.stack[0]),
                        Some(Box::new(cfg.stack[1])),
                        Box::new(cfg.stack[2]),
                    ),
                    Seq::empty(),
                ),
            )
        } else {
            None
        },
        State::MutationExpr => if n == 2 {
            Some(
                (
                    SpecExpr::MutateExpr(Box::new(cfg.stack[0]), Box::new(cfg.stack[1])),
                    Seq::empty(),
                ),
            )
        } else {
            None
        },
        State::PostParamFunctionExpr => if n == 3 {
            Some(
                (
                    SpecExpr::FunctionExpr(
                        Box::new(cfg.stack[0]),
                        Box::new(cfg.stack[1]),
                        None,
                        Box::new(cfg.stack[2]),
                    ),
                    Seq::empty(),
                ),
            )
        } else if n == 4 {
            Some(
                (
                    SpecExpr::FunctionExpr(
                        Box::new(cfg.stack[0]),
                        Box::new(cfg.stack[1]),
                        Some(Box::new(cfg.stack[2])),
                        Box::new(cfg.stack[3]),
                    ),
                    Seq::empty(),
                ),
            )
        } else {
            None
        },
        State::Empty => if n >= 1 && cfg.stack.last() is FunctionCall {
            Some((cfg.stack.last(), cfg.stack.drop_last()))
        } else {
            None
        },
        _ => None,
    };
    match built {
        Some((e, stack)) => match emit_into(cfg.frames, cfg.tree, e) {
            Some((frames, tree)) => Some(SpecCfg { mode: State::Empty, stack, frames, tree }),
            None => None,
        },
        None => None,
    }
}

/// Closing `}` of a block: the saved outer stack and mode come back, and the
/// finished block lands on the restored stack as one new pending value.
pub open spec fn close_block(cfg: SpecCfg) -> SpecCfg {
    if cfg.frames.len() > 0 && cfg.frames.last() is Block {
        let saved_stack = cfg.frames.last()->Block_stack;
        let saved_mode = cfg.frames.last()->Block_mode;
        let stmts = cfg.frames.last()->Block_stmts;
        SpecCfg {
            mode: saved_mode,
            stack: saved_stack.push(SpecExpr::BlockExpr(stmts)),
            frames: cfg.frames.drop_last(),
            tree: cfg.tree,
        }
    } else {
        cfg
    }
}

/// Law: completing a `{ ... }` block restores the pending-value stack that
/// was saved when the block began, plus exactly one new value — the block
/// itself — whatever statements (including further nested blocks) the block
/// held, and restores the saved mode.
pub proof fn lemma_block_close_stack_depth(cfg: SpecCfg)
    requires
        cfg.frames.len() > 0,
        cfg.frames.last() is Block,
    ensures
        close_block(cfg).stack.len() == cfg.frames.last()->Block_stack.len() + 1,
        close_block(cfg).stack.drop_last() == cfg.frames.last()->Block_stack,
        close_block(cfg).stack.last() == SpecExpr::BlockExpr(cfg.frames.last()->Block_stmts),
        close_block(cfg).mode == cfg.frames.last()->Block_mode,
        close_block(cfg).frames == cfg.frames.drop_last(),
        close_block(cfg).tree == cfg.tree,
{
    let s = cfg.frames.last()->Block_stack;
    let b = SpecExpr::BlockExpr(cfg.frames.last()->Block_stmts);
    assert(s.push(b).drop_last() =~= s);
}

/// How many times byte `b` occurs in `t`.
pub open spec fn count_byte(t: Seq<u8>, b: u8) -> int
    decreases t.len(),
{
    if t.len() == 0 {
        0
    } else {
        count_byte(t.drop_last(), b) + if t.last() == b { 1int } else { 0int }
    }
}

/// Whether byte `b` occurs in `t`.
pub open spec fn contains_byte(t: Seq<u8>, b: u8) -> bool {
    exists|k: int| 0 <= k < t.len() && t[k] == b
}

/// Whether every byte of `t` is a decimal digit.
pub open spec fn all_digits(t: Seq<u8>) -> bool {
    forall|k: int| 0 <= k < t.len() ==> crate::lexer::is_digit(#[trigger] t[k])
}

/// The value of a digit string, most significant digit first.
pub open spec fn digits_val(t: Seq<u8>) -> int
    decreases t.len(),
{
    if t.len() == 0 {
        0
    } else {
        digits_val(t.drop_last()) * 10 + (t.last() - 48)
    }
}

/// What a number literal's raw text converts to: text with a dot is a float
/// — valid only as exactly one dot and no underscore (the raw text is then
/// kept); text without a dot is an integer — valid only as all digits with a
/// value that fits in 32 signed bits. Anything else is malformed and fatal.
pub enum SpecNum {
    IntVal(int),
    FltVal,
    BadVal,
}

pub open spec fn num_value(t: Seq<u8>) -> SpecNum {
    if contains_byte(t, 46) {
        if !contains_byte(t, 95) && count_byte(t, 46) == 1 {
            SpecNum::FltVal
        } else {
            SpecNum::BadVal
        }
    } else if all_digits(t) && digits_val(t) <= 2147483647 {
        SpecNum::IntVal(digits_val(t))
    } else {
        SpecNum::BadVal
    }
}

/// The general per-token dispatch, used when no enclosing list construct
/// intercepts the token first.
pub open spec fn dispatch(cfg: SpecCfg, t: SpecKind, nk: SpecKind) -> SpecStep {
    match t {
        SpecKind::Number(text) => match num_value(text) {
            SpecNum::IntVal(v) => SpecStep::Next(push_value(cfg, SpecExpr::Integer(v), nk)),
            SpecNum::FltVal => SpecStep::Next(push_value(cfg, SpecExpr::Float(text), nk)),
            SpecNum::BadVal => SpecStep::Fail,
        },
        SpecKind::Ident(text) => SpecStep::Next(push_value(cfg, SpecExpr::Ident(text), nk)),
        SpecKind::Str(text) => SpecStep::Next(push_value(cfg, SpecExpr::Str(text), nk)),
        SpecKind::Dot => if cfg.stack.len() >= 1 {
            SpecStep::Next(
                SpecCfg {
                    mode: cfg.mode,
                    stack: cfg.stack.drop_last(),
                    frames: cfg.frames.push(
                        SpecFrame::Rhs { left: cfg.stack.last(), comb: Comb::Qi },
                    ),
                    tree: cfg.tree,
                },
            )
        } else {
            SpecStep::Fail
        },
        SpecKind::EOF => if cfg.mode is Empty && cfg.stack.len() == 0 && cfg.frames.len() == 0 {
            SpecStep::Done(cfg.tree)
        } else {
            SpecStep::Fail
        },
        SpecKind::Var => SpecStep::Next(SpecCfg { mode: State::UntypedVarExpr, ..cfg }),
        SpecKind::Const => SpecStep::Next(SpecCfg { mode: State::UntypedConstExpr, ..cfg }),
        SpecKind::Def => SpecStep::Next(SpecCfg { mode: State::PreParamFunctionExpr, ..cfg }),
        SpecKind::From => SpecStep::Next(SpecCfg { mode: State::ImportExpr, ..cfg }),
        SpecKind::Methods => SpecStep::Next(SpecCfg { mode: State::ClassMethods, ..cfg }),
        SpecKind::Class => SpecStep::Next(SpecCfg { mode: State::ClassExpr, ..cfg }),
        SpecKind::Print => SpecStep::Next(SpecCfg { mode: State::PrintExpr, ..cfg }),
        SpecKind::Return => SpecStep::Next(SpecCfg { mode: State::ReturnExpr, ..cfg }),
        SpecKind::Flag => SpecStep::Next(SpecCfg { mode: State::FlagExpr, ..cfg }),
        SpecKind::Arrow => SpecStep::Next(SpecCfg { mode: State::MutationExpr, ..cfg }),
        SpecKind::Import => if cfg.mode is ImportExpr {
            SpecStep::Next(
                SpecCfg {
                    frames: cfg.frames.push(SpecFrame::ImportArgs { elems: Seq::empty() }),
                    ..cfg
                },
            )
        } else {
            SpecStep::Fail
        },
        SpecKind::LPar => if cfg.mode is PreParamFunctionExpr {
            SpecStep::Next(
                SpecCfg {
                    frames: cfg.frames.push(
                        SpecFrame::Params { elems: Seq::empty(), any: false },
                    ),
                    ..cfg
                },
            )
        } else if cfg.stack.len() >= 1 && cfg.stack.last() is Ident {
            SpecStep::Next(
                SpecCfg {
                    frames: cfg.frames.push(SpecFrame::Args { elems: Seq::empty(), any: false }),
                    ..cfg
                },
            )
        } else {
            SpecStep::Next(SpecCfg { frames: cfg.frames.push(SpecFrame::Parens), ..cfg })
        },
        SpecKind::LCurl => match cfg.mode {
            State::PostParamFunctionExpr => SpecStep::Next(
                SpecCfg {
                    mode: cfg.mode,
                    stack: Seq::empty(),
                    frames: cfg.frames.push(
                        SpecFrame::Block {
                            stack: cfg.stack,
                            mode: cfg.mode,
                            stmts: Seq::empty(),
                        },
                    ),
                    tree: cfg.tree,
                },
            ),
            State::ClassMethods => if cfg.stack.len() >= 1 {
                SpecStep::Next(
                    SpecCfg {
                        mode: cfg.mode,
                        stack: cfg.stack.drop_last(),
                        frames: cfg.frames.push(
                            SpecFrame::Methods { name: cfg.stack.last(), methods: Seq::empty() },
                        ),
                        tree: cfg.tree,
                    },
                )
            } else {
                SpecStep::Fail
            },
            State::ClassExpr => SpecStep::Next(
                SpecCfg {
                    frames: cfg.frames.push(
                        SpecFrame::ClassFields { elems: Seq::empty(), last_comma: true },
                    ),
                    ..cfg
                },
            ),
            _ => SpecStep::Fail,
        },
        SpecKind::RCurl => if cfg.frames.len() > 0 && cfg.frames.last() is Block {
            let restored = close_block(cfg);
            if restored.mode is PostParamFunctionExpr {
                match spec_reduce(restored) {
                    Some(c) => SpecStep::Next(c),
                    None => SpecStep::Fail,
                }
            } else {
                SpecStep::Next(restored)
            }
        } else {
            SpecStep::Fail
        },
        SpecKind::Plus => binop_start(cfg, BinaryOperator::Plus),
        SpecKind::Minus => binop_start(cfg, BinaryOperator::Minus),
        SpecKind::Slash => binop_start(cfg, BinaryOperator::Divide),
        SpecKind::Modulo => binop_start(cfg, BinaryOperator::Modulo),
        SpecKind::Exponent => binop_start(cfg, BinaryOperator::Exponent),
        SpecKind::Star => if cfg.mode is ImportExpr {
            SpecStep::Next(push_value(cfg, SpecExpr::Wildcard, nk))
        } else {
            binop_start(cfg, BinaryOperator::Multiply)
        },
        SpecKind::Equal => match cfg.mode {
            State::UntypedVarExpr | State::TypedVarExpr | State::UntypedConstExpr
                | State::TypedConstExpr => SpecStep::Next(cfg),
            _ => SpecStep::Fail,
        },
        SpecKind::Colon => match cfg.mode {
            State::UntypedVarExpr => SpecStep::Next(SpecCfg { mode: State::TypedVarExpr, ..cfg }),
            State::UntypedConstExpr => SpecStep::Next(
                SpecCfg { mode: State::TypedConstExpr, ..cfg },
            ),
            State::PreParamFunctionExpr | State::ClassExpr => if cfg.stack.len() >= 1 {
                SpecStep::Next(
                    SpecCfg {
                        mode: cfg.mode,
                        stack: cfg.stack.drop_last(),
                        frames: cfg.frames.push(
                            SpecFrame::Rhs { left: cfg.stack.last(), comb: Comb::Param },
                        ),
                        tree: cfg.tree,
                    },
                )
            } else {
                SpecStep::Fail
            },
            State::PostParamFunctionExpr => SpecStep::Next(cfg),
            _ => SpecStep::Fail,
        },
        SpecKind::SemiColon => match spec_reduce(cfg) {
            Some(c) => SpecStep::Next(c),
            None => SpecStep::Fail,
        },
        SpecKind::QMark => if cfg.stack.len() >= 1 {
            let wrapped = SpecExpr::QMark(Box::new(cfg.stack.last()));
            let (stack, frames) = settle(cfg.stack.drop_last().push(wrapped), cfg.frames, nk);
            SpecStep::Next(SpecCfg { mode: cfg.mode, stack, frames, tree: cfg.tree })
        } else {
            SpecStep::Fail
        },
        // Comparison operators, `::`, `if`/`else`/`elif`, and a separator or
        // closing delimiter with no construct to close are not valid
        // statements or operands anywhere: fatal.
        _ => SpecStep::Fail,
    }
}

/// A binary operator pops its left operand and opens a right-hand-side
/// frame; the operand parsed next will combine with it.
pub open spec fn binop_start(cfg: SpecCfg, op: BinaryOperator) -> SpecStep {
    if cfg.stack.len() >= 1 {
        SpecStep::Next(
            SpecCfg {
                mode: cfg.mode,
                stack: cfg.stack.drop_last(),
                frames: cfg.frames.push(
                    SpecFrame::Rhs { left: cfg.stack.last(), comb: Comb::Bin(op) },
                ),
                tree: cfg.tree,
            },
        )
    } else {
        SpecStep::Fail
    }
}

/// Restricted dispatch inside a `methods` block: only function declarations
/// and their parts are legal.
pub open spec fn step_methods(cfg: SpecCfg, t: SpecKind, nk: SpecKind) -> SpecStep {
    match t {
        SpecKind::Def => SpecStep::Next(SpecCfg { mode: State::PreParamFunctionExpr, ..cfg }),
        SpecKind::Ident(text) => SpecStep::Next(push_value(cfg, SpecExpr::Ident(text), nk)),
        SpecKind::Colon => match cfg.mode {
            State::PreParamFunctionExpr => if cfg.stack.len() >= 1 {
                SpecStep::Next(
                    SpecCfg {
                        mode: cfg.mode,
                        stack: cfg.stack.drop_last(),
                        frames: cfg.frames.push(
                            SpecFrame::Rhs { left: cfg.stack.last(), comb: Comb::Param },
                        ),
                        tree: cfg.tree,
                    },
                )
            } else {
                SpecStep::Fail
            },
            State::PostParamFunctionExpr => SpecStep::Next(cfg),
            _ => SpecStep::Fail,
        },
        SpecKind::LPar => if cfg.mode is PreParamFunctionExpr {
            SpecStep::Next(
                SpecCfg {
                    frames: cfg.frames.push(
                        SpecFrame::Params { elems: Seq::empty(), any: false },
                    ),
                    ..cfg
                },
            )
        } else {
            SpecStep::Fail
        },
        SpecKind::LCurl => if cfg.mode is PostParamFunctionExpr {
            SpecStep::Next(
                SpecCfg {
                    mode: cfg.mode,
                    stack: Seq::empty(),
                    frames: cfg.frames.push(
                        SpecFrame::Block {
                            stack: cfg.stack,
                            mode: cfg.mode,
                            stmts: Seq::empty(),
                        },
                    ),
                    tree: cfg.tree,
                },
            )
        } else {
            SpecStep::Fail
        },
        SpecKind::RCurl => {
            let name = cfg.frames.last()->Methods_name;
            let methods = cfg.frames.last()->Methods_methods;
            match emit_into(
                cfg.frames.drop_last(),
                cfg.tree,
                SpecExpr::ClassMethods(Box::new(name), methods),
            ) {
                Some((frames, tree)) => SpecStep::Next(
                    SpecCfg { mode: State::Empty, stack: cfg.stack, frames, tree },
                ),
                None => SpecStep::Fail,
            }
        },
        _ => SpecStep::Fail,
    }
}

/// What one token does to the parser state: the innermost enclosing list
/// construct may intercept it (its separator and closing delimiter); any
/// other token goes to the general dispatch.
pub open spec fn spec_step(cfg: SpecCfg, t: SpecKind, nk: SpecKind) -> SpecStep {
    if cfg.frames.len() > 0 && cfg.frames.last() is Methods {
        step_methods(cfg, t, nk)
    } else if cfg.frames.len() > 0 && cfg.frames.last() is ClassFields {
        let elems = cfg.frames.last()->ClassFields_elems;
        let last_comma = cfg.frames.last()->ClassFields_last_comma;
        match t {
            SpecKind::Comma => if cfg.stack.len() >= 1 {
                SpecStep::Next(
                    SpecCfg {
                        mode: cfg.mode,
                        stack: cfg.stack.drop_last(),
                        frames: cfg.frames.drop_last().push(
                            SpecFrame::ClassFields {
                                elems: elems.push(cfg.stack.last()),
                                last_comma: true,
                            },
                        ),
                        tree: cfg.tree,
                    },
                )
            } else {
                SpecStep::Fail
            },
            SpecKind::RCurl => {
                if !last_comma && cfg.stack.len() == 0 {
                    SpecStep::Fail
                } else {
                    let elems2 = if !last_comma {
                        elems.push(cfg.stack.last())
                    } else {
                        elems
                    };
                    let stack2 = if !last_comma {
                        cfg.stack.drop_last()
                    } else {
                        cfg.stack
                    };
                    let after = SpecCfg {
                        mode: cfg.mode,
                        stack: stack2.push(SpecExpr::ClassFields(elems2)),
                        frames: cfg.frames.drop_last(),
                        tree: cfg.tree,
                    };
                    match spec_reduce(after) {
                        Some(c) => SpecStep::Next(c),
                        None => SpecStep::Fail,
                    }
                }
            },
            _ => dispatch(
                SpecCfg {
                    mode: cfg.mode,
                    stack: cfg.stack,
                    frames: cfg.frames.drop_last().push(
                        SpecFrame::ClassFields { elems, last_comma: false },
                    ),
                    tree: cfg.tree,
                },
                t,
                nk,
            ),
        }
    } else if cfg.frames.len() > 0 && cfg.frames.last() is ImportArgs {
        let elems = cfg.frames.last()->ImportArgs_elems;
        match t {
            SpecKind::Comma => if cfg.stack.len() >= 1 {
                SpecStep::Next(
                    SpecCfg {
                        mode: cfg.mode,
                        stack: cfg.stack.drop_last(),
                        frames: cfg.frames.drop_last().push(
                            SpecFrame::ImportArgs { elems: elems.push(cfg.stack.last()) },
                        ),
                        tree: cfg.tree,
                    },
                )
            } else {
                SpecStep::Fail
            },
            SpecKind::SemiColon => if cfg.stack.len() >= 1 {
                let after = SpecCfg {
                    mode: cfg.mode,
                    stack: cfg.stack.drop_last().push(
                        SpecExpr::ImportArgs(elems.push(cfg.stack.last())),
                    ),
                    frames: cfg.frames.drop_last(),
                    tree: cfg.tree,
                };
                match spec_reduce(after) {
                    Some(c) => SpecStep::Next(c),
                    None => SpecStep::Fail,
                }
            } else {
                SpecStep::Fail
            },
            _ => dispatch(cfg, t, nk),
        }
    } else if cfg.frames.len() > 0 && cfg.frames.last() is Args {
        let elems = cfg.frames.last()->Args_elems;
        let any = cfg.frames.last()->Args_any;
        match t {
            SpecKind::Comma => if cfg.stack.len() >= 1 {
                SpecStep::Next(
                    SpecCfg {
                        mode: cfg.mode,
                        stack: cfg.stack.drop_last(),
                        frames: cfg.frames.drop_last().push(
                            SpecFrame::Args { elems: elems.push(cfg.stack.last()), any: false },
                        ),
                        tree: cfg.tree,
                    },
                )
            } else {
                SpecStep::Fail
            },
            SpecKind::RPar => {
                if any && cfg.stack.len() == 0 {
                    SpecStep::Fail
                } else {
                    let elems2 = if any {
                        elems.push(cfg.stack.last())
                    } else {
                        elems
                    };
                    let stack2 = if any {
                        cfg.stack.drop_last()
                    } else {
                        cfg.stack
                    };
                    // The callee identifier sits beneath the arguments.
                    if stack2.len() >= 1 {
                        let call = SpecExpr::FunctionCall(
                            Box::new(stack2.last()),
                            Box::new(SpecExpr::FunctionArgs(elems2)),
                        );
                        let (stack3, frames3) = settle(
                            stack2.drop_last().push(call),
                            cfg.frames.drop_last(),
                            nk,
                        );
                        SpecStep::Next(
                            SpecCfg { mode: cfg.mode, stack: stack3, frames: frames3, tree: cfg.tree },
                        )
                    } else {
                        SpecStep::Fail
                    }
                }
            },
            _ => dispatch(
                SpecCfg {
                    mode: cfg.mode,
                    stack: cfg.stack,
                    frames: cfg.frames.drop_last().push(SpecFrame::Args { elems, any: true }),
                    tree: cfg.tree,
                },
                t,
                nk,
            ),
        }
    } else if cfg.frames.len() > 0 && cfg.frames.last() is Params {
        let elems = cfg.frames.last()->Params_elems;
        let any = cfg.frames.last()->Params_any;
        match t {
            SpecKind::Comma => if cfg.stack.len() >= 1 {
                SpecStep::Next(
                    SpecCfg {
                        mode: cfg.mode,
                        stack: cfg.stack.drop_last(),
                        frames: cfg.frames.drop_last().push(
                            SpecFrame::Params { elems: elems.push(cfg.stack.last()), any: false },
                        ),
                        tree: cfg.tree,
                    },
                )
            } else {
                SpecStep::Fail
            },
            SpecKind::RPar => {
                if any && cfg.stack.len() == 0 {
                    SpecStep::Fail
                } else {
                    let elems2 = if any {
                        elems.push(cfg.stack.last())
                    } else {
                        elems
                    };
                    let stack2 = if any {
                        cfg.stack.drop_last()
                    } else {
                        cfg.stack
                    };
                    SpecStep::Next(
                        SpecCfg {
                            mode: State::PostParamFunctionExpr,
                            stack: stack2.push(SpecExpr::FunctionArgs(elems2)),
                            frames: cfg.frames.drop_last(),
                            tree: cfg.tree,
                        },
                    )
                }
            },
            _ => dispatch(
                SpecCfg {
                    mode: cfg.mode,
                    stack: cfg.stack,
                    frames: cfg.frames.drop_last().push(SpecFrame::Params { elems, any: true }),
                    tree: cfg.tree,
                },
                t,
                nk,
            ),
        }
    } else if cfg.frames.len() > 0 && cfg.frames.last() is Parens {
        match t {
            SpecKind::RPar => if cfg.stack.len() >= 1 {
                let wrapped = SpecExpr::ParensExpr(Box::new(cfg.stack.last()));
                let (stack, frames) = settle(
                    cfg.stack.drop_last().push(wrapped),
                    cfg.frames.drop_last(),
                    nk,
                );
                SpecStep::Next(SpecCfg { mode: cfg.mode, stack, frames, tree: cfg.tree })
            } else {
                SpecStep::Fail
            },
            _ => dispatch(cfg, t, nk),
        }
    } else {
        dispatch(cfg, t, nk)
    }
}

/// Runs the parser over the tokens from index `i` on: one step per token.
/// `Err` carries the index of the token at which the parse fails; a token
/// sequence that ends without `EOF` fails at its length.
pub open spec fn run_from(toks: Seq<SpecToken>, i: int, cfg: SpecCfg) -> Result<Seq<SpecExpr>, int>
    decreases toks.len() - i,
{
    if i < 0 || i >= toks.len() {
        Err(i)
    } else {
        let nk = if i + 1 < toks.len() {
            toks[i + 1].kind
        } else {
            SpecKind::EOF
        };
        match spec_step(cfg, toks[i].kind, nk) {
            SpecStep::Done(tree) => Ok(tree),
            SpecStep::Next(c) => run_from(toks, i + 1, c),
            SpecStep::Fail => Err(i),
        }
    }
}

/// The whole parse of a token sequence: the ordered top-level expression
/// trees, or the index of the token at which the parse fails.
pub open spec fn spec_parse(toks: Seq<SpecToken>) -> Result<Seq<SpecExpr>, int> {
    run_from(toks, 0, init_cfg())
}

/// One enclosing construct of the current token (runtime level).
pub enum Frame {
    Parens,
    Args { elems: Vec<Expr>, any: bool },
    Params { elems: Vec<Expr>, any: bool },
    ImportArgs { elems: Vec<Expr> },
    ClassFields { elems: Vec<Expr>, last_comma: bool },
    Block { stack: Vec<Expr>, mode: State, stmts: Vec<Expr> },
    Methods { name: Expr, methods: Vec<Expr> },
    Rhs { left: Expr, comb: Comb },
}

impl View for Frame {
    type V = SpecFrame;

    open spec fn view(&self) -> SpecFrame {
        match self {
            Frame::Parens => SpecFrame::Parens,
            Frame::Args { elems, any } => SpecFrame::Args { elems: exprs_view(elems@), any: *any },
            Frame::Params { elems, any } => SpecFrame::Params {
                elems: exprs_view(elems@),
                any: *any,
            },
            Frame::ImportArgs { elems } => SpecFrame::ImportArgs { elems: exprs_view(elems@) },
            Frame::ClassFields { elems, last_comma } => SpecFrame::ClassFields {
                elems: exprs_view(elems@),
                last_comma: *last_comma,
            },
            Frame::Block { stack, mode, stmts } => SpecFrame::Block {
                stack: exprs_view(stack@),
                mode: *mode,
                stmts: exprs_view(stmts@),
            },
            Frame::Methods { name, methods } => SpecFrame::Methods {
                name: expr_view(*name),
                methods: exprs_view(methods@),
            },
            Frame::Rhs { left, comb } => SpecFrame::Rhs { left: expr_view(*left), comb: *comb },
        }
    }
}

/// The models of a frame stack, innermost last.
pub open spec fn frames_view(v: Seq<Frame>) -> Seq<SpecFrame> {
    v.map_values(|f: Frame| f@)
}

pub broadcast proof fn lemma_exprs_view_push(s: Seq<Expr>, e: Expr)
    ensures
        #[trigger] exprs_view(s.push(e)) == exprs_view(s).push(expr_view(e)),
{
    assert(exprs_view(s.push(e)) =~= exprs_view(s).push(expr_view(e)));
}

pub broadcast proof fn lemma_exprs_view_drop(s: Seq<Expr>)
    requires
        s.len() >= 1,
    ensures
        #[trigger] exprs_view(s.drop_last()) == exprs_view(s).drop_last(),
{
    assert(exprs_view(s.drop_last()) =~= exprs_view(s).drop_last());
}

pub broadcast proof fn lemma_frames_view_push(s: Seq<Frame>, f: Frame)
    ensures
        #[trigger] frames_view(s.push(f)) == frames_view(s).push(f@),
{
    assert(frames_view(s.push(f)) =~= frames_view(s).push(f@));
}

pub broadcast proof fn lemma_frames_view_drop(s: Seq<Frame>)
    requires
        s.len() >= 1,
    ensures
        #[trigger] frames_view(s.drop_last()) == frames_view(s).drop_last(),
{
    assert(frames_view(s.drop_last()) =~= frames_view(s).drop_last());
}

/// A fresh copy of the bytes of `v`.
fn dup_bytes(v: &Vec<u8>) -> (r: Vec<u8>)
    ensures
        r@ == v@,
{
    let r = crate::lexer::copy_range(v, 0, v.len());
    proof {
        assert(v@.subrange(0, v@.len() as int) =~= v@);
    }
    r
}

/// An owned copy of a token kind with the same model.
fn dup_kind(k: &TokenKind) -> (r: TokenKind)
    ensures
        r@ == k@,
{
    match k {
        TokenKind::LPar => TokenKind::LPar,
        TokenKind::RPar => TokenKind::RPar,
        TokenKind::LCurl => TokenKind::LCurl,
        TokenKind::RCurl => TokenKind::RCurl,
        TokenKind::Arrow => TokenKind::Arrow,
        TokenKind::Colon => TokenKind::Colon,
        TokenKind::ColonColon => TokenKind::ColonColon,
        TokenKind::SemiColon => TokenKind::SemiColon,
        TokenKind::Dot => TokenKind::Dot,
        TokenKind::Comma => TokenKind::Comma,
        TokenKind::QMark => TokenKind::QMark,
        TokenKind::Equal => TokenKind::Equal,
        TokenKind::EqualEqual => TokenKind::EqualEqual,
        TokenKind::Bang => TokenKind::Bang,
        TokenKind::BangEqual => TokenKind::BangEqual,
        TokenKind::Less => TokenKind::Less,
        TokenKind::LessEqual => TokenKind::LessEqual,
        TokenKind::More => TokenKind::More,
        TokenKind::MoreEqual => TokenKind::MoreEqual,
        TokenKind::Plus => TokenKind::Plus,
        TokenKind::Minus => TokenKind::Minus,
        TokenKind::Star => TokenKind::Star,
        TokenKind::Slash => TokenKind::Slash,
        TokenKind::Modulo => TokenKind::Modulo,
        TokenKind::Exponent => TokenKind::Exponent,
        TokenKind::Ident(v) => TokenKind::Ident(dup_bytes(v)),
        TokenKind::Number(v) => TokenKind::Number(dup_bytes(v)),
        TokenKind::Str(v) => TokenKind::Str(dup_bytes(v)),
        TokenKind::Var => TokenKind::Var,
        TokenKind::Const => TokenKind::Const,
        TokenKind::If => TokenKind::If,
        TokenKind::Else => TokenKind::Else,
        TokenKind::Elif => TokenKind::Elif,
        TokenKind::Def => TokenKind::Def,
        TokenKind::From => TokenKind::From,
        TokenKind::Import => TokenKind::Import,
        TokenKind::Class => TokenKind::Class,
        TokenKind::Methods => TokenKind::Methods,
        TokenKind::Return => TokenKind::Return,
        TokenKind::Flag => TokenKind::Flag,
        TokenKind::Print => TokenKind::Print,
        TokenKind::EOF => TokenKind::EOF,
    }
}

/// Whether the next token continues a pending right-hand side.
fn rhs_continues_tk(comb: Comb, nk: &TokenKind) -> (r: bool)
    ensures
        r == rhs_continues(comb, nk@),
{
    match comb {
        Comb::Qi => matches!(nk, TokenKind::Dot),
        Comb::Param => matches!(nk, TokenKind::Dot),
        Comb::Bin(_) => matches!(
            nk,
            TokenKind::Dot | TokenKind::Plus | TokenKind::Minus | TokenKind::Star
                | TokenKind::Slash | TokenKind::Modulo | TokenKind::Exponent | TokenKind::LPar
        ),
    }
}

/// The node a completed right-hand side builds.
fn combined_node(left: Expr, right: Expr, comb: Comb) -> (r: Expr)
    ensures
        expr_view(r) == rhs_combined(expr_view(left), expr_view(right), comb),
{
    match comb {
        Comb::Qi => Expr::QualifiedIdent(Box::new(left), Box::new(right)),
        Comb::Bin(op) => Expr::BinaryExpr(Box::new(left), Box::new(right), op),
        Comb::Param => Expr::Parameter(Box::new(left), Box::new(right)),
    }
}

/// Converts a number literal's raw text: the integer or float atom it
/// denotes, or `None` for malformed numeric text.
fn num_atom(text: Vec<u8>) -> (r: Option<Expr>)
    ensures
        match num_value(text@) {
            SpecNum::IntVal(v) => r matches Some(e) && expr_view(e) == SpecExpr::Integer(v),
            SpecNum::FltVal => r matches Some(e) && expr_view(e) == SpecExpr::Float(text@),
            SpecNum::BadVal => r is None,
        },
{
    let ghost t = text@;
    let n = text.len();
    let mut has_dot = false;
    let mut has_us = false;
    let mut dots: usize = 0;
    let mut i: usize = 0;
    while i < n
        invariant
            n == text@.len(),
            text@ == t,
            0 <= i <= n,
            has_dot == contains_byte(t.subrange(0, i as int), 46),
            has_us == contains_byte(t.subrange(0, i as int), 95),
            dots == count_byte(t.subrange(0, i as int), 46),
            dots <= i,
        decreases n - i,
    {
        let b = text[i];
        proof {
            assert(t.subrange(0, i + 1 as int).drop_last() =~= t.subrange(0, i as int));
            assert(t.subrange(0, i + 1 as int).last() == t[i as int]);
        }
        if b == 46 {
            has_dot = true;
            dots = dots + 1;
        } else if b == 95 {
            has_us = true;
        }
        i += 1;
    }
    proof {
        assert(t.subrange(0, n as int) =~= t);
    }
    if has_dot {
        if !has_us && dots == 1 {
            Some(Expr::Float(text))
        } else {
            None
        }
    } else {
        // No dot: the text must be all digits and fit in 32 signed bits.
        let mut acc: u64 = 0;
        let mut over = false;
        let mut i: usize = 0;
        while i < n
            invariant
                n == text@.len(),
                text@ == t,
                !contains_byte(t, 46),
                0 <= i <= n,
                all_digits(t.subrange(0, i as int)),
                digits_val(t.subrange(0, i as int)) >= 0,
                !over ==> acc == digits_val(t.subrange(0, i as int)) && acc <= 2147483647,
                over ==> digits_val(t.subrange(0, i as int)) > 2147483647,
            decreases n - i,
        {
            let b = text[i];
            proof {
                assert(t.subrange(0, i + 1 as int).drop_last() =~= t.subrange(0, i as int));
                assert(t.subrange(0, i + 1 as int).last() == t[i as int]);
            }
            if b < 48 || b > 57 {
                // A non-digit byte: malformed integer text.
                proof {
                    assert(t.subrange(0, i + 1 as int)[i as int] == t[i as int]);
                    assert(!all_digits(t));
                }
                return None;
            }
            if over {
                // The value already exceeds the limit and digits only grow it.
            } else {
                let nacc = acc * 10 + ((b - 48) as u64);
                if nacc > 2147483647 {
                    over = true;
                } else {
                    acc = nacc;
                }
            }
            i += 1;
        }
        proof {
            assert(t.subrange(0, n as int) =~= t);
        }
        if over {
            None
        } else {
            Some(Expr::Integer(acc as i32))
        }
    }
}

proof fn lemma_capture_idx(fs: Seq<SpecFrame>)
    ensures
        match capture_idx(fs) {
            Some(j) => 0 <= j < fs.len() && (fs[j] is Block || fs[j] is Methods) && forall|k: int|
                #![trigger fs[k]]
                j < k < fs.len() ==> !(fs[k] is Block || fs[k] is Methods),
            None => forall|k: int|
                #![trigger fs[k]]
                0 <= k < fs.len() ==> !(fs[k] is Block || fs[k] is Methods),
        },
    decreases fs.len(),
{
    if fs.len() > 0 && !(fs.last() is Block || fs.last() is Methods) {
        lemma_capture_idx(fs.drop_last());
        assert(forall|k: int| #![trigger fs[k]] 0 <= k < fs.len() - 1 ==> fs.drop_last()[k] == fs[k]);
    }
}

/// Whether this frame collects completed statements.
fn is_capture(f: &Frame) -> (r: bool)
    ensures
        r == (f@ is Block || f@ is Methods),
{
    matches!(f, Frame::Block { .. } | Frame::Methods { .. })
}

/// The result of feeding the parser one token.
enum StepRes {
    Go,
    Finished,
    Bad,
}

/// Consumes the token sequence once and produces the ordered list of
/// top-level expression trees.
pub struct Parser {
    tokens: Vec<Token>,
    pos: usize,
    stack: Vec<Expr>,
    frames: Vec<Frame>,
    tree: Vec<Expr>,
    state: State,
}

impl Parser {
    /// The models of the tokens this parser consumes.
    pub closed spec fn toks(&self) -> Seq<SpecToken> {
        tokens_view(self.tokens@)
    }

    /// The models of the completed top-level statements so far.
    pub closed spec fn results(&self) -> Seq<SpecExpr> {
        exprs_view(self.tree@)
    }

    /// A parser that has consumed nothing yet.
    pub closed spec fn fresh(&self) -> bool {
        &&& self.pos == 0
        &&& self.stack@.len() == 0
        &&& self.frames@.len() == 0
        &&& self.tree@.len() == 0
        &&& self.state == State::Empty
    }

    /// The whole transient state, at the model level.
    closed spec fn cfg(&self) -> SpecCfg {
        SpecCfg {
            mode: self.state,
            stack: exprs_view(self.stack@),
            frames: frames_view(self.frames@),
            tree: exprs_view(self.tree@),
        }
    }

    /// A parser positioned at the start of `tokens`.
    pub fn new(tokens: Vec<Token>) -> (p: Parser)
        ensures
            p.toks() == tokens_view(tokens@),
            p.fresh(),
    {
        Parser {
            tokens,
            pos: 0,
            stack: Vec::new(),
            frames: Vec::new(),
            tree: Vec::new(),
            state: State::Empty,
        }
    }

    /// Hands out the finished top-level trees.
    pub fn into_tree(self) -> (r: Vec<Expr>)
        ensures
            exprs_view(r@) == self.results(),
    {
        self.tree
    }

    /// Closes pending right-hand sides that the next token does not
    /// continue, combining each with the value on top of the stack.
    fn settle_now(&mut self, nk: &TokenKind)
        ensures
            final(self).tokens@ == old(self).tokens@,
            final(self).pos == old(self).pos,
            final(self).state == old(self).state,
            final(self).tree@ == old(self).tree@,
            (exprs_view(final(self).stack@), frames_view(final(self).frames@)) == settle(
                exprs_view(old(self).stack@),
                frames_view(old(self).frames@),
                nk@,
            ),
    {
        broadcast use lemma_exprs_view_push, lemma_exprs_view_drop, lemma_frames_view_push, lemma_frames_view_drop;

        let ghost orig = (exprs_view(old(self).stack@), frames_view(old(self).frames@));
        loop
            invariant
                self.tokens@ == old(self).tokens@,
                self.pos == old(self).pos,
                self.state == old(self).state,
                self.tree@ == old(self).tree@,
                settle(exprs_view(self.stack@), frames_view(self.frames@), nk@) == settle(
                    orig.0,
                    orig.1,
                    nk@,
                ),
            ensures
                (exprs_view(self.stack@), frames_view(self.frames@)) == settle(
                    orig.0,
                    orig.1,
                    nk@,
                ),
            decreases self.frames@.len(),
        {
            let ghost s0 = exprs_view(self.stack@);
            let ghost f0 = frames_view(self.frames@);
            let fl = self.frames.len();
            if fl == 0 || self.stack.len() == 0 {
                proof {
                    assert(settle(s0, f0, nk@) == (s0, f0));
                }
                break;
            }
            let comb_opt: Option<Comb> = match &self.frames[fl - 1] {
                Frame::Rhs { left: _, comb } => Some(*comb),
                _ => None,
            };
            match comb_opt {
                None => {
                    proof {
                        assert(!(f0.last() is Rhs));
                        assert(settle(s0, f0, nk@) == (s0, f0));
                    }
                    break;
                },
                Some(comb) => {
                    proof {
                        assert(f0.last() matches SpecFrame::Rhs { comb: fc, .. } && fc == comb);
                    }
                    if rhs_continues_tk(comb, nk) {
                        proof {
                            assert(settle(s0, f0, nk@) == (s0, f0));
                        }
                        break;
                    }
                    let f = self.frames.pop();
                    let v = self.stack.pop();
                    match (f, v) {
                        (Some(Frame::Rhs { left, comb }), Some(right)) => {
                            let c = combined_node(left, right, comb);
                            self.stack.push(c);
                            proof {
                                assert(exprs_view(self.stack@) == s0.drop_last().push(
                                    rhs_combined(f0.last()->Rhs_left, s0.last(), comb),
                                ));
                                assert(frames_view(self.frames@) == f0.drop_last());
                                assert(settle(s0, f0, nk@) == settle(
                                    exprs_view(self.stack@),
                                    frames_view(self.frames@),
                                    nk@,
                                ));
                            }
                        },
                        _ => {
                            // The checks above make this unreachable.
                            proof {
                                assert(false);
                            }
                        },
                    }
                },
            }
        }
    }

    /// Appends a completed statement to the innermost enclosing block (or
    /// methods block), or to the output tree. A methods block refuses
    /// anything but a function declaration.
    fn emit_stmt(&mut self, e: Expr) -> (ok: bool)
        ensures
            final(self).tokens@ == old(self).tokens@,
            final(self).pos == old(self).pos,
            match emit_into(
                frames_view(old(self).frames@),
                exprs_view(old(self).tree@),
                expr_view(e),
            ) {
                Some((fs, tr)) => ok && final(self).state == old(self).state && final(self).stack@
                    == old(self).stack@ && frames_view(final(self).frames@) == fs && exprs_view(
                    final(self).tree@,
                ) == tr,
                None => !ok,
            },
    {
        broadcast use lemma_exprs_view_push, lemma_frames_view_push;

        proof {
            lemma_capture_idx(frames_view(self.frames@));
        }
        let n = self.frames.len();
        let mut j = n;
        loop
            invariant
                self == old(self),
                n == self.frames@.len(),
                0 <= j <= n,
                forall|k: int|
                    #![trigger frames_view(self.frames@)[k]]
                    j <= k < n ==> !(frames_view(self.frames@)[k] is Block || frames_view(
                        self.frames@,
                    )[k] is Methods),
            ensures
                self == old(self),
                0 <= j <= n,
                j == 0 ==> capture_idx(frames_view(self.frames@)) is None,
                j > 0 ==> capture_idx(frames_view(self.frames@)) == Some(j - 1),
            decreases j,
        {
            if j == 0 {
                proof {
                    lemma_capture_idx(frames_view(self.frames@));
                    match capture_idx(frames_view(self.frames@)) {
                        Some(jx) => {
                            assert(!(frames_view(self.frames@)[jx] is Block || frames_view(
                                self.frames@,
                            )[jx] is Methods));
                            assert(false);
                        },
                        None => {},
                    }
                }
                break;
            }
            if is_capture(&self.frames[j - 1]) {
                proof {
                    let fv = frames_view(self.frames@);
                    lemma_capture_idx(fv);
                    assert(fv[j - 1] is Block || fv[j - 1] is Methods);
                    match capture_idx(fv) {
                        Some(jx) => {
                            if jx > j - 1 {
                                assert(!(fv[jx] is Block || fv[jx] is Methods));
                                assert(false);
                            }
                            if jx < j - 1 {
                                assert(!(fv[j - 1] is Block || fv[j - 1] is Methods));
                                assert(false);
                            }
                        },
                        None => {
                            assert(!(fv[j - 1] is Block || fv[j - 1] is Methods));
                            assert(false);
                        },
                    }
                }
                break;
            }
            j -= 1;
        }
        if j == 0 {
            // No enclosing block: the statement is a finished top-level tree.
            self.tree.push(e);
            true
        } else {
            let ghost fv = frames_view(self.frames@);
            let f = self.frames.remove(j - 1);
            match f {
                Frame::Block { stack, mode, mut stmts } => {
                    stmts.push(e);
                    self.frames.insert(j - 1, Frame::Block { stack, mode, stmts });
                    proof {
                        assert(frames_view(self.frames@) =~= fv.update(
                            j - 1 as int,
                            frames_view(self.frames@)[j - 1 as int],
                        ));
                    }
                    true
                },
                Frame::Methods { name, mut methods } => {
                    if matches!(&e, Expr::FunctionExpr(..)) {
                        methods.push(e);
                        self.frames.insert(j - 1, Frame::Methods { name, methods });
                        proof {
                            assert(frames_view(self.frames@) =~= fv.update(
                                j - 1 as int,
                                frames_view(self.frames@)[j - 1 as int],
                            ));
                        }
                        true
                    } else {
                        false
                    }
                },
                _ => {
                    // The scan above stopped on a capture frame.
                    proof {
                        assert(false);
                    }
                    false
                },
            }
        }
    }

    /// Pushes a completed value and closes what it completes.
    fn push_value_now(&mut self, e: Expr, nk: &TokenKind)
        ensures
            final(self).tokens@ == old(self).tokens@,
            final(self).pos == old(self).pos,
            final(self).cfg() == push_value(old(self).cfg(), expr_view(e), nk@),
    {
        broadcast use lemma_exprs_view_push;

        self.stack.push(e);
        self.settle_now(nk);
    }

    /// The mode-specific reduction: pops the construct's exact arity, emits
    /// the completed statement and returns to mode `Empty`.
    fn reduce_now(&mut self) -> (ok: bool)
        ensures
            final(self).tokens@ == old(self).tokens@,
            final(self).pos == old(self).pos,
            match spec_reduce(old(self).cfg()) {
                Some(c) => ok && final(self).cfg() == c,
                None => !ok,
            },
    {
        broadcast use lemma_exprs_view_push, lemma_exprs_view_drop;

        let n = self.stack.len();
        let built: Option<Expr> = match self.state {
            State::ClassExpr => if n == 2 {
                let b = self.stack.pop().unwrap();
                let a = self.stack.pop().unwrap();
                Some(Expr::ClassExpr(Box::new(a), Box::new(b)))
            } else {
                None
            },
            State::FlagExpr => if n == 1 {
                let a = self.stack.pop().unwrap();
                Some(Expr::FlagExpr(Box::new(a)))
            } else {
                None
            },
            State::ReturnExpr => if n >= 1 {
                let a = self.stack.pop().unwrap();
                Some(Expr::ReturnExpr(Box::new(a)))
            } else {
                None
            },
            State::PrintExpr => if n >= 1 {
                let a = self.stack.pop().unwrap();
                Some(Expr::PrintExpr(Box::new(a)))
            } else {
                None
            },
            State::ImportExpr => if n == 2 {
                let b = self.stack.pop().unwrap();
                let a = self.stack.pop().unwrap();
                Some(Expr::ImportExpr(Box::new(a), Box::new(b)))
            } else {
                None
            },
            State::UntypedVarExpr => if n == 2 {
                let b = self.stack.pop().unwrap();
                let a = self.stack.pop().unwrap();
                Some(Expr::VariableExpr(Box::new(a), None, Box::new(b)))
            } else {
                None
            },
            State::UntypedConstExpr => if n == 2 {
                let b = self.stack.pop().unwrap();
                let a = self.stack.pop().unwrap();
                Some(Expr::ConstExpr(Box::new(a), None, Box::new(b)))
            } else {
                None
            },
            State::TypedVarExpr => if n == 3 {
                let c = self.stack.pop().unwrap();
                let b = self.stack.pop().unwrap();
                let a = self.stack.pop().unwrap();
                Some(Expr::VariableExpr(Box::new(a), Some(Box::new(b)), Box::new(c)))
            } else {
                None
            },
            State::TypedConstExpr => if n == 3 {
                let c = self.stack.pop().unwrap();
                let b = self.stack.pop().unwrap();
                let a = self.stack.pop().unwrap();
                Some(Expr::ConstExpr(Box::new(a), Some(Box::new(b)), Box::new(c)))
            } else {
                None
            },
            State::MutationExpr => if n == 2 {
                let b = self.stack.pop().unwrap();
                let a = self.stack.pop().unwrap();
                Some(Expr::MutateExpr(Box::new(a), Box::new(b)))
            } else {
                None
            },
            State::PostParamFunctionExpr => if n == 3 {
                let c = self.stack.pop().unwrap();
                let b = self.stack.pop().unwrap();
                let a = self.stack.pop().unwrap();
                Some(Expr::FunctionExpr(Box::new(a), Box::new(b), None, Box::new(c)))
            } else if n == 4 {
                let d = self.stack.pop().unwrap();
                let c = self.stack.pop().unwrap();
                let b = self.stack.pop().unwrap();
                let a = self.stack.pop().unwrap();
                Some(Expr::FunctionExpr(Box::new(a), Box::new(b), Some(Box::new(c)), Box::new(d)))
            } else {
                None
            },
            State::Empty => {
                let is_call = n >= 1 && matches!(&self.stack[n - 1], Expr::FunctionCall(..));
                if is_call {
                    let a = self.stack.pop().unwrap();
                    Some(a)
                } else {
                    None
                }
            },
            _ => None,
        };
        proof {
            if built is Some {
                if self.state is PrintExpr || self.state is ReturnExpr || self.state is Empty {
                    assert(exprs_view(self.stack@) =~= exprs_view(old(self).stack@).drop_last());
                } else {
                    assert(exprs_view(self.stack@) =~= Seq::<SpecExpr>::empty());
                }
            }
        }
        match built {
            Some(e) => {
                let ok = self.emit_stmt(e);
                if ok {
                    self.state = State::Empty;
                }
                ok
            },
            None => false,
        }
    }

    /// The general per-token dispatch, once no enclosing list construct has
    /// intercepted the token.
    #[verifier::rlimit(60)]
    fn dispatch_token(&mut self, t: TokenKind, nk: &TokenKind) -> (r: StepRes)
        ensures
            final(self).tokens@ == old(self).tokens@,
            match dispatch(old(self).cfg(), t@, nk@) {
                SpecStep::Next(c) => r is Go && final(self).cfg() == c && final(self).pos == old(self).pos,
                SpecStep::Done(tr) => r is Finished && final(self).cfg().tree == tr && final(self).pos == old(self).pos,
                SpecStep::Fail => r is Bad && final(self).pos == old(self).pos,
            },
    {
        broadcast use lemma_exprs_view_push, lemma_exprs_view_drop, lemma_frames_view_push, lemma_frames_view_drop, lemma_list_views;

        match t {
            TokenKind::Number(text) => match num_atom(text) {
                Some(e) => {
                    self.push_value_now(e, nk);
                    StepRes::Go
                },
                None => StepRes::Bad,
            },
            TokenKind::Ident(text) => {
                self.push_value_now(Expr::Ident(text), nk);
                StepRes::Go
            },
            TokenKind::Str(text) => {
                self.push_value_now(Expr::Str(text), nk);
                StepRes::Go
            },
            TokenKind::Dot => match self.stack.pop() {
                Some(left) => {
                    self.frames.push(Frame::Rhs { left, comb: Comb::Qi });
                    proof {
                        let s0 = old(self).stack@;
                        assert(exprs_view(s0).last() == expr_view(s0.last()));
                        assert(exprs_view(s0.drop_last()) =~= exprs_view(s0).drop_last());
                        assert(frames_view(self.frames@) == frames_view(old(self).frames@).push(
                            SpecFrame::Rhs { left: exprs_view(s0).last(), comb: Comb::Qi },
                        ));
                    }
                    StepRes::Go
                },
                None => StepRes::Bad,
            },
            TokenKind::EOF => {
                if matches!(self.state, State::Empty) && self.stack.len() == 0 && self.frames.len()
                    == 0 {
                    StepRes::Finished
                } else {
                    StepRes::Bad
                }
            },
            TokenKind::Var => {
                self.state = State::UntypedVarExpr;
                StepRes::Go
            },
            TokenKind::Const => {
                self.state = State::UntypedConstExpr;
                StepRes::Go
            },
            TokenKind::Def => {
                self.state = State::PreParamFunctionExpr;
                StepRes::Go
            },
            TokenKind::From => {
                self.state = State::ImportExpr;
                StepRes::Go
            },
            TokenKind::Methods => {
                self.state = State::ClassMethods;
                StepRes::Go
            },
            TokenKind::Class => {
                self.state = State::ClassExpr;
                StepRes::Go
            },
            TokenKind::Print => {
                self.state = State::PrintExpr;
                StepRes::Go
            },
            TokenKind::Return => {
                self.state = State::ReturnExpr;
                StepRes::Go
            },
            TokenKind::Flag => {
                self.state = State::FlagExpr;
                StepRes::Go
            },
            TokenKind::Arrow => {
                self.state = State::MutationExpr;
                StepRes::Go
            },
            TokenKind::Import => {
                if matches!(self.state, State::ImportExpr) {
                    let elems: Vec<Expr> = Vec::new();
                    proof {
                        assert(exprs_view(elems@) =~= Seq::<SpecExpr>::empty());
                    }
                    self.frames.push(Frame::ImportArgs { elems });
                    StepRes::Go
                } else {
                    StepRes::Bad
                }
            },
            TokenKind::LPar => {
                if matches!(self.state, State::PreParamFunctionExpr) {
                    let elems: Vec<Expr> = Vec::new();
                    proof {
                        assert(exprs_view(elems@) =~= Seq::<SpecExpr>::empty());
                    }
                    self.frames.push(Frame::Params { elems, any: false });
                    StepRes::Go
                } else {
                    let sl = self.stack.len();
                    let is_id = sl > 0 && matches!(&self.stack[sl - 1], Expr::Ident(_));
                    if is_id {
                        let elems: Vec<Expr> = Vec::new();
                        proof {
                            assert(exprs_view(elems@) =~= Seq::<SpecExpr>::empty());
                        }
                        self.frames.push(Frame::Args { elems, any: false });
                        StepRes::Go
                    } else {
                        self.frames.push(Frame::Parens);
                        StepRes::Go
                    }
                }
            },
            TokenKind::LCurl => match self.state {
                State::PostParamFunctionExpr => {
                    let mut saved: Vec<Expr> = Vec::new();
                    core::mem::swap(&mut saved, &mut self.stack);
                    let stmts: Vec<Expr> = Vec::new();
                    proof {
                        assert(exprs_view(self.stack@) =~= Seq::<SpecExpr>::empty());
                        assert(exprs_view(stmts@) =~= Seq::<SpecExpr>::empty());
                    }
                    self.frames.push(Frame::Block { stack: saved, mode: self.state, stmts });
                    StepRes::Go
                },
                State::ClassMethods => match self.stack.pop() {
                    Some(name) => {
                        let methods: Vec<Expr> = Vec::new();
                        proof {
                            assert(exprs_view(methods@) =~= Seq::<SpecExpr>::empty());
                            let s0 = old(self).stack@;
                            assert(exprs_view(s0).last() == expr_view(s0.last()));
                            assert(exprs_view(s0.drop_last()) =~= exprs_view(s0).drop_last());
                        }
                        self.frames.push(Frame::Methods { name, methods });
                        StepRes::Go
                    },
                    None => StepRes::Bad,
                },
                State::ClassExpr => {
                    let elems: Vec<Expr> = Vec::new();
                    proof {
                        assert(exprs_view(elems@) =~= Seq::<SpecExpr>::empty());
                    }
                    self.frames.push(Frame::ClassFields { elems, last_comma: true });
                    StepRes::Go
                },
                _ => StepRes::Bad,
            },
            TokenKind::RCurl => {
                let fl = self.frames.len();
                let is_blk = fl > 0 && matches!(&self.frames[fl - 1], Frame::Block { .. });
                if is_blk {
                    let ghost f0 = frames_view(self.frames@);
                    let f = self.frames.pop();
                    match f {
                        Some(Frame::Block { stack: saved, mode: omode, stmts }) => {
                            let ghost sv = saved@;
                            let ghost stv = stmts@;
                            proof {
                                lemma_list_views(stmts);
                            }
                            let be = Expr::BlockExpr(stmts);
                            proof {
                                assert(f0.last() == old(self).frames@.last()@);
                                assert(f0.last()->Block_stack == exprs_view(sv));
                                assert(f0.last()->Block_stmts == exprs_view(stv));
                                assert(expr_view(be) == SpecExpr::BlockExpr(exprs_view(stv)));
                            }
                            self.stack = saved;
                            self.stack.push(be);
                            self.state = omode;
                            proof {
                                assert(exprs_view(self.stack@) == exprs_view(sv).push(
                                    expr_view(be),
                                ));
                                assert(frames_view(self.frames@) =~= f0.drop_last());
                                assert(self.cfg() == close_block(old(self).cfg()));
                            }
                            if matches!(omode, State::PostParamFunctionExpr) {
                                if self.reduce_now() {
                                    StepRes::Go
                                } else {
                                    StepRes::Bad
                                }
                            } else {
                                StepRes::Go
                            }
                        },
                        _ => {
                            proof {
                                assert(false);
                            }
                            StepRes::Bad
                        },
                    }
                } else {
                    StepRes::Bad
                }
            },
            TokenKind::Plus => self.binop_now(BinaryOperator::Plus),
            TokenKind::Minus => self.binop_now(BinaryOperator::Minus),
            TokenKind::Slash => self.binop_now(BinaryOperator::Divide),
            TokenKind::Modulo => self.binop_now(BinaryOperator::Modulo),
            TokenKind::Exponent => self.binop_now(BinaryOperator::Exponent),
            TokenKind::Star => {
                if matches!(self.state, State::ImportExpr) {
                    self.push_value_now(Expr::Wildcard, nk);
                    StepRes::Go
                } else {
                    self.binop_now(BinaryOperator::Multiply)
                }
            },
            TokenKind::Equal => match self.state {
                State::UntypedVarExpr | State::TypedVarExpr | State::UntypedConstExpr
                    | State::TypedConstExpr => StepRes::Go,
                _ => StepRes::Bad,
            },
            TokenKind::Colon => match self.state {
                State::UntypedVarExpr => {
                    self.state = State::TypedVarExpr;
                    StepRes::Go
                },
                State::UntypedConstExpr => {
                    self.state = State::TypedConstExpr;
                    StepRes::Go
                },
                State::PreParamFunctionExpr | State::ClassExpr => match self.stack.pop() {
                    Some(name) => {
                        self.frames.push(Frame::Rhs { left: name, comb: Comb::Param });
                        proof {
                            let s0 = old(self).stack@;
                            assert(exprs_view(s0).last() == expr_view(s0.last()));
                            assert(exprs_view(s0.drop_last()) =~= exprs_view(s0).drop_last());
                            assert(frames_view(self.frames@) == frames_view(old(self).frames@)
                                .push(
                                SpecFrame::Rhs { left: exprs_view(s0).last(), comb: Comb::Param },
                            ));
                        }
                        StepRes::Go
                    },
                    None => StepRes::Bad,
                },
                State::PostParamFunctionExpr => StepRes::Go,
                _ => StepRes::Bad,
            },
            TokenKind::SemiColon => {
                if self.reduce_now() {
                    StepRes::Go
                } else {
                    StepRes::Bad
                }
            },
            TokenKind::QMark => match self.stack.pop() {
                Some(v) => {
                    proof {
                        let s0 = old(self).stack@;
                        assert(exprs_view(s0).last() == expr_view(s0.last()));
                        assert(exprs_view(s0.drop_last()) =~= exprs_view(s0).drop_last());
                    }
                    self.push_value_now(Expr::QMark(Box::new(v)), nk);
                    StepRes::Go
                },
                None => StepRes::Bad,
            },
            _ => StepRes::Bad,
        }
    }

    /// A binary operator pops its left operand and opens a right-hand-side
    /// frame.
    fn binop_now(&mut self, op: BinaryOperator) -> (r: StepRes)
        ensures
            final(self).tokens@ == old(self).tokens@,
            match binop_start(old(self).cfg(), op) {
                SpecStep::Next(c) => r is Go && final(self).cfg() == c && final(self).pos == old(self).pos,
                SpecStep::Fail => r is Bad && final(self).pos == old(self).pos,
                SpecStep::Done(_) => false,
            },
    {
        broadcast use lemma_exprs_view_drop, lemma_frames_view_push;

        match self.stack.pop() {
            Some(left) => {
                self.frames.push(Frame::Rhs { left, comb: Comb::Bin(op) });
                proof {
                    let s0 = old(self).stack@;
                    assert(exprs_view(s0).last() == expr_view(s0.last()));
                    assert(exprs_view(s0.drop_last()) =~= exprs_view(s0).drop_last());
                    assert(exprs_view(self.stack@) == exprs_view(s0).drop_last());
                    assert(frames_view(self.frames@) == frames_view(old(self).frames@).push(
                        SpecFrame::Rhs { left: exprs_view(s0).last(), comb: Comb::Bin(op) },
                    ));
                }
                StepRes::Go
            },
            None => StepRes::Bad,
        }
    }
}

/// Which kind of frame is innermost, if any.
#[derive(Clone, Copy, PartialEq, Eq, Structural)]
enum FrameTag {
    NoFrame,
    TParens,
    TArgs,
    TParams,
    TImport,
    TFields,
    TBlock,
    TMethods,
    TRhs,
}

impl Parser {
    /// The kind of the innermost enclosing frame.
    fn frame_tag(&self) -> (g: FrameTag)
        ensures
            ({
                let fv = frames_view(self.frames@);
                match g {
                    FrameTag::NoFrame => fv.len() == 0,
                    FrameTag::TParens => fv.len() > 0 && fv.last() is Parens,
                    FrameTag::TArgs => fv.len() > 0 && fv.last() is Args,
                    FrameTag::TParams => fv.len() > 0 && fv.last() is Params,
                    FrameTag::TImport => fv.len() > 0 && fv.last() is ImportArgs,
                    FrameTag::TFields => fv.len() > 0 && fv.last() is ClassFields,
                    FrameTag::TBlock => fv.len() > 0 && fv.last() is Block,
                    FrameTag::TMethods => fv.len() > 0 && fv.last() is Methods,
                    FrameTag::TRhs => fv.len() > 0 && fv.last() is Rhs,
                }
            }),
    {
        let fl = self.frames.len();
        if fl == 0 {
            FrameTag::NoFrame
        } else {
            match &self.frames[fl - 1] {
                Frame::Parens => FrameTag::TParens,
                Frame::Args { .. } => FrameTag::TArgs,
                Frame::Params { .. } => FrameTag::TParams,
                Frame::ImportArgs { .. } => FrameTag::TImport,
                Frame::ClassFields { .. } => FrameTag::TFields,
                Frame::Block { .. } => FrameTag::TBlock,
                Frame::Methods { .. } => FrameTag::TMethods,
                Frame::Rhs { .. } => FrameTag::TRhs,
            }
        }
    }

    /// Feeds the parser the token at the current position.
    #[verifier::rlimit(100)]
    fn step_once(&mut self) -> (r: StepRes)
        requires
            old(self).pos < old(self).tokens@.len(),
        ensures
            final(self).tokens@ == old(self).tokens@,
            ({
                let tks = tokens_view(old(self).tokens@);
                let t = tks[old(self).pos as int].kind;
                let nk = if old(self).pos + 1 < tks.len() {
                    tks[old(self).pos as int + 1].kind
                } else {
                    SpecKind::EOF
                };
                match spec_step(old(self).cfg(), t, nk) {
                    SpecStep::Next(c) => r is Go && final(self).cfg() == c && final(self).pos
                        == old(self).pos + 1,
                    SpecStep::Done(tr) => r is Finished && final(self).cfg().tree == tr && final(self).pos == old(self).pos,
                    SpecStep::Fail => r is Bad && final(self).pos == old(self).pos,
                }
            }),
    {
        broadcast use lemma_exprs_view_push, lemma_exprs_view_drop, lemma_frames_view_push, lemma_frames_view_drop, lemma_list_views;

        let pos = self.pos;
        let n = self.tokens.len();
        let t = dup_kind(&self.tokens[pos].kind);
        let nk = if n - pos > 1 {
            dup_kind(&self.tokens[pos + 1].kind)
        } else {
            TokenKind::EOF
        };
        proof {
            assert(t@ == tokens_view(self.tokens@)[pos as int].kind);
            if pos + 1 < self.tokens@.len() {
                assert(nk@ == tokens_view(self.tokens@)[pos as int + 1].kind);
            }
        }
        let tag = self.frame_tag();
        let r: StepRes = if matches!(tag, FrameTag::TMethods) {
            self.step_in_methods(t, &nk)
        } else if matches!(tag, FrameTag::TFields) {
            match t {
                TokenKind::Comma => {
                    let ghost f0 = frames_view(self.frames@);
                    let f = self.frames.pop();
                    proof {
                        assert(frames_view(old(self).frames@).last() == old(self).frames@.last()@);
                        assert(frames_view(self.frames@) =~= frames_view(old(self).frames@).drop_last());
                    }
                    match (f, self.stack.pop()) {
                        (Some(Frame::ClassFields { mut elems, last_comma: _ }), Some(v)) => {
                            proof {
                                assert(f0.last() == old(self).frames@.last()@);
                                let s0 = old(self).stack@;
                                assert(exprs_view(s0).last() == expr_view(s0.last()));
                                assert(exprs_view(s0.drop_last()) =~= exprs_view(s0).drop_last());
                            }
                            elems.push(v);
                            self.frames.push(Frame::ClassFields { elems, last_comma: true });
                            StepRes::Go
                        },
                        _ => StepRes::Bad,
                    }
                },
                TokenKind::RCurl => {
                    let ghost f0 = frames_view(self.frames@);
                    let f = self.frames.pop();
                    proof {
                        assert(frames_view(old(self).frames@).last() == old(self).frames@.last()@);
                        assert(frames_view(self.frames@) =~= frames_view(old(self).frames@).drop_last());
                    }
                    match f {
                        Some(Frame::ClassFields { mut elems, last_comma }) => {
                            proof {
                                assert(f0.last() == old(self).frames@.last()@);
                            }
                            if !last_comma {
                                match self.stack.pop() {
                                    Some(v) => {
                                        proof {
                                            let s0 = old(self).stack@;
                                            assert(exprs_view(s0).last() == expr_view(s0.last()));
                                            assert(exprs_view(s0.drop_last()) =~= exprs_view(
                                                s0,
                                            ).drop_last());
                                        }
                                        elems.push(v);
                                    },
                                    None => {
                                        return StepRes::Bad;
                                    },
                                }
                            }
                            proof {
                                lemma_list_views(elems);
                            }
                            self.stack.push(Expr::ClassFields(elems));
                            if self.reduce_now() {
                                StepRes::Go
                            } else {
                                StepRes::Bad
                            }
                        },
                        _ => StepRes::Bad,
                    }
                },
                _ => {
                    let f = self.frames.pop();
                    proof {
                        assert(frames_view(old(self).frames@).last() == old(self).frames@.last()@);
                        assert(frames_view(self.frames@) =~= frames_view(old(self).frames@).drop_last());
                    }
                    match f {
                        Some(Frame::ClassFields { elems, last_comma: _ }) => {
                            self.frames.push(Frame::ClassFields { elems, last_comma: false });
                        },
                        _ => {
                            proof {
                                assert(false);
                            }
                        },
                    }
                    proof {
                        assert(frames_view(old(self).frames@).last() == old(self).frames@.last()@);
                    }
                    self.dispatch_token(t, &nk)
                },
            }
        } else if matches!(tag, FrameTag::TImport) {
            match t {
                TokenKind::Comma => {
                    let ghost f0 = frames_view(self.frames@);
                    let f = self.frames.pop();
                    proof {
                        assert(frames_view(old(self).frames@).last() == old(self).frames@.last()@);
                        assert(frames_view(self.frames@) =~= frames_view(old(self).frames@).drop_last());
                    }
                    match (f, self.stack.pop()) {
                        (Some(Frame::ImportArgs { mut elems }), Some(v)) => {
                            proof {
                                assert(f0.last() == old(self).frames@.last()@);
                                let s0 = old(self).stack@;
                                assert(exprs_view(s0).last() == expr_view(s0.last()));
                                assert(exprs_view(s0.drop_last()) =~= exprs_view(s0).drop_last());
                            }
                            elems.push(v);
                            self.frames.push(Frame::ImportArgs { elems });
                            StepRes::Go
                        },
                        _ => StepRes::Bad,
                    }
                },
                TokenKind::SemiColon => {
                    let ghost f0 = frames_view(self.frames@);
                    let f = self.frames.pop();
                    proof {
                        assert(frames_view(old(self).frames@).last() == old(self).frames@.last()@);
                        assert(frames_view(self.frames@) =~= frames_view(old(self).frames@).drop_last());
                    }
                    match (f, self.stack.pop()) {
                        (Some(Frame::ImportArgs { mut elems }), Some(v)) => {
                            proof {
                                assert(f0.last() == old(self).frames@.last()@);
                                let s0 = old(self).stack@;
                                assert(exprs_view(s0).last() == expr_view(s0.last()));
                                assert(exprs_view(s0.drop_last()) =~= exprs_view(s0).drop_last());
                            }
                            elems.push(v);
                            proof {
                                lemma_list_views(elems);
                            }
                            self.stack.push(Expr::ImportArgs(elems));
                            if self.reduce_now() {
                                StepRes::Go
                            } else {
                                StepRes::Bad
                            }
                        },
                        _ => StepRes::Bad,
                    }
                },
                _ => self.dispatch_token(t, &nk),
            }
        } else if matches!(tag, FrameTag::TArgs) {
            match t {
                TokenKind::Comma => {
                    let ghost f0 = frames_view(self.frames@);
                    let f = self.frames.pop();
                    proof {
                        assert(frames_view(old(self).frames@).last() == old(self).frames@.last()@);
                        assert(frames_view(self.frames@) =~= frames_view(old(self).frames@).drop_last());
                    }
                    match (f, self.stack.pop()) {
                        (Some(Frame::Args { mut elems, any: _ }), Some(v)) => {
                            proof {
                                assert(f0.last() == old(self).frames@.last()@);
                                let s0 = old(self).stack@;
                                assert(exprs_view(s0).last() == expr_view(s0.last()));
                                assert(exprs_view(s0.drop_last()) =~= exprs_view(s0).drop_last());
                            }
                            elems.push(v);
                            self.frames.push(Frame::Args { elems, any: false });
                            StepRes::Go
                        },
                        _ => StepRes::Bad,
                    }
                },
                TokenKind::RPar => {
                    let ghost f0 = frames_view(self.frames@);
                    let ghost s0 = exprs_view(self.stack@);
                    let f = self.frames.pop();
                    proof {
                        assert(frames_view(old(self).frames@).last() == old(self).frames@.last()@);
                        assert(frames_view(self.frames@) =~= frames_view(old(self).frames@).drop_last());
                    }
                    match f {
                        Some(Frame::Args { mut elems, any }) => {
                            if any {
                                match self.stack.pop() {
                                    Some(v) => {
                                        proof {
                                            assert(expr_view(v) == s0.last());
                                            assert(exprs_view(self.stack@) =~= s0.drop_last());
                                        }
                                        elems.push(v);
                                    },
                                    None => {
                                        return StepRes::Bad;
                                    },
                                }
                            }
                            let ghost s2: Seq<SpecExpr> = if any {
                                s0.drop_last()
                            } else {
                                s0
                            };
                            proof {
                                assert(exprs_view(self.stack@) == s2);
                            }
                            match self.stack.pop() {
                                Some(callee) => {
                                    proof {
                                        assert(expr_view(callee) == s2.last());
                                        assert(exprs_view(self.stack@) =~= s2.drop_last());
                                        lemma_list_views(elems);
                                    }
                                    let call = Expr::FunctionCall(
                                        Box::new(callee),
                                        Box::new(Expr::FunctionArgs(elems)),
                                    );
                                    self.push_value_now(call, &nk);
                                    StepRes::Go
                                },
                                None => StepRes::Bad,
                            }
                        },
                        _ => StepRes::Bad,
                    }
                },
                _ => {
                    let f = self.frames.pop();
                    proof {
                        assert(frames_view(old(self).frames@).last() == old(self).frames@.last()@);
                        assert(frames_view(self.frames@) =~= frames_view(old(self).frames@).drop_last());
                    }
                    match f {
                        Some(Frame::Args { elems, any: _ }) => {
                            self.frames.push(Frame::Args { elems, any: true });
                        },
                        _ => {
                            proof {
                                assert(false);
                            }
                        },
                    }
                    proof {
                        assert(frames_view(old(self).frames@).last() == old(self).frames@.last()@);
                    }
                    self.dispatch_token(t, &nk)
                },
            }
        } else if matches!(tag, FrameTag::TParams) {
            match t {
                TokenKind::Comma => {
                    let ghost f0 = frames_view(self.frames@);
                    let f = self.frames.pop();
                    proof {
                        assert(frames_view(old(self).frames@).last() == old(self).frames@.last()@);
                        assert(frames_view(self.frames@) =~= frames_view(old(self).frames@).drop_last());
                    }
                    match (f, self.stack.pop()) {
                        (Some(Frame::Params { mut elems, any: _ }), Some(v)) => {
                            proof {
                                assert(f0.last() == old(self).frames@.last()@);
                                let s0 = old(self).stack@;
                                assert(exprs_view(s0).last() == expr_view(s0.last()));
                                assert(exprs_view(s0.drop_last()) =~= exprs_view(s0).drop_last());
                            }
                            elems.push(v);
                            self.frames.push(Frame::Params { elems, any: false });
                            StepRes::Go
                        },
                        _ => StepRes::Bad,
                    }
                },
                TokenKind::RPar => {
                    let ghost f0 = frames_view(self.frames@);
                    let f = self.frames.pop();
                    proof {
                        assert(frames_view(old(self).frames@).last() == old(self).frames@.last()@);
                        assert(frames_view(self.frames@) =~= frames_view(old(self).frames@).drop_last());
                    }
                    match f {
                        Some(Frame::Params { mut elems, any }) => {
                            proof {
                                assert(f0.last() == old(self).frames@.last()@);
                            }
                            if any {
                                match self.stack.pop() {
                                    Some(v) => {
                                        proof {
                                            let sq = old(self).stack@;
                                            assert(exprs_view(sq).last() == expr_view(sq.last()));
                                            assert(exprs_view(sq.drop_last()) =~= exprs_view(
                                                sq,
                                            ).drop_last());
                                        }
                                        elems.push(v);
                                    },
                                    None => {
                                        return StepRes::Bad;
                                    },
                                }
                            }
                            proof {
                                lemma_list_views(elems);
                            }
                            self.stack.push(Expr::FunctionArgs(elems));
                            self.state = State::PostParamFunctionExpr;
                            StepRes::Go
                        },
                        _ => StepRes::Bad,
                    }
                },
                _ => {
                    let f = self.frames.pop();
                    proof {
                        assert(frames_view(old(self).frames@).last() == old(self).frames@.last()@);
                        assert(frames_view(self.frames@) =~= frames_view(old(self).frames@).drop_last());
                    }
                    match f {
                        Some(Frame::Params { elems, any: _ }) => {
                            self.frames.push(Frame::Params { elems, any: true });
                        },
                        _ => {
                            proof {
                                assert(false);
                            }
                        },
                    }
                    proof {
                        assert(frames_view(old(self).frames@).last() == old(self).frames@.last()@);
                    }
                    self.dispatch_token(t, &nk)
                },
            }
        } else if matches!(tag, FrameTag::TParens) {
            match t {
                TokenKind::RPar => {
                    let f = self.frames.pop();
                    proof {
                        assert(frames_view(old(self).frames@).last() == old(self).frames@.last()@);
                        assert(frames_view(self.frames@) =~= frames_view(old(self).frames@).drop_last());
                    }
                    match (f, self.stack.pop()) {
                        (Some(Frame::Parens), Some(v)) => {
                            proof {
                                let s0 = old(self).stack@;
                                assert(exprs_view(s0).last() == expr_view(s0.last()));
                                assert(exprs_view(s0.drop_last()) =~= exprs_view(s0).drop_last());
                            }
                            self.push_value_now(Expr::ParensExpr(Box::new(v)), &nk);
                            StepRes::Go
                        },
                        _ => StepRes::Bad,
                    }
                },
                _ => self.dispatch_token(t, &nk),
            }
        } else {
            self.dispatch_token(t, &nk)
        };
        match r {
            StepRes::Go => {
                self.pos = pos + 1;
                StepRes::Go
            },
            StepRes::Finished => StepRes::Finished,
            StepRes::Bad => StepRes::Bad,
        }
    }

    /// Restricted dispatch while a `methods` block is innermost.
    fn step_in_methods(&mut self, t: TokenKind, nk: &TokenKind) -> (r: StepRes)
        requires
            frames_view(old(self).frames@).len() > 0,
            frames_view(old(self).frames@).last() is Methods,
        ensures
            final(self).tokens@ == old(self).tokens@,
            match step_methods(old(self).cfg(), t@, nk@) {
                SpecStep::Next(c) => r is Go && final(self).cfg() == c && final(self).pos == old(self).pos,
                SpecStep::Done(tr) => false,
                SpecStep::Fail => r is Bad && final(self).pos == old(self).pos,
            },
    {
        broadcast use lemma_exprs_view_push, lemma_exprs_view_drop, lemma_frames_view_push, lemma_frames_view_drop, lemma_list_views;

        match t {
            TokenKind::Def => {
                self.state = State::PreParamFunctionExpr;
                StepRes::Go
            },
            TokenKind::Ident(text) => {
                self.push_value_now(Expr::Ident(text), nk);
                StepRes::Go
            },
            TokenKind::Colon => match self.state {
                State::PreParamFunctionExpr => match self.stack.pop() {
                    Some(name) => {
                        self.frames.push(Frame::Rhs { left: name, comb: Comb::Param });
                        proof {
                            let s0 = old(self).stack@;
                            assert(exprs_view(s0).last() == expr_view(s0.last()));
                            assert(exprs_view(s0.drop_last()) =~= exprs_view(s0).drop_last());
                        }
                        StepRes::Go
                    },
                    None => StepRes::Bad,
                },
                State::PostParamFunctionExpr => StepRes::Go,
                _ => StepRes::Bad,
            },
            TokenKind::LPar => {
                if matches!(self.state, State::PreParamFunctionExpr) {
                    let elems: Vec<Expr> = Vec::new();
                    proof {
                        assert(exprs_view(elems@) =~= Seq::<SpecExpr>::empty());
                    }
                    self.frames.push(Frame::Params { elems, any: false });
                    StepRes::Go
                } else {
                    StepRes::Bad
                }
            },
            TokenKind::LCurl => {
                if matches!(self.state, State::PostParamFunctionExpr) {
                    let mut saved: Vec<Expr> = Vec::new();
                    core::mem::swap(&mut saved, &mut self.stack);
                    let stmts: Vec<Expr> = Vec::new();
                    proof {
                        assert(exprs_view(self.stack@) =~= Seq::<SpecExpr>::empty());
                        assert(exprs_view(stmts@) =~= Seq::<SpecExpr>::empty());
                    }
                    self.frames.push(Frame::Block { stack: saved, mode: self.state, stmts });
                    StepRes::Go
                } else {
                    StepRes::Bad
                }
            },
            TokenKind::RCurl => {
                let ghost f0 = frames_view(self.frames@);
                let f = self.frames.pop();
                match f {
                    Some(Frame::Methods { name, methods }) => {
                        proof {
                            assert(f0.last() == old(self).frames@.last()@);
                            assert(frames_view(self.frames@) =~= f0.drop_last());
                            lemma_methods_view(&name, &methods);
                        }
                        let cm = Expr::ClassMethods(Box::new(name), methods);
                        if self.emit_stmt(cm) {
                            self.state = State::Empty;
                            StepRes::Go
                        } else {
                            StepRes::Bad
                        }
                    },
                    _ => {
                        proof {
                            assert(f0.last() == old(self).frames@.last()@);
                            assert(false);
                        }
                        StepRes::Bad
                    },
                }
            },
            _ => StepRes::Bad,
        }
    }
}

impl Parser {
    /// Consumes the whole token sequence, one token per step, and fills the
    /// output tree with the completed top-level statements. Succeeds exactly
    /// when the model parse `spec_parse` succeeds, with exactly its trees;
    /// fails with a fatal parse error pointing at the token at which the
    /// model parse fails.
    pub fn parse(&mut self) -> (r: Result<(), SkError>)
        requires
            old(self).fresh(),
        ensures
            final(self).toks() == old(self).toks(),
            match spec_parse(old(self).toks()) {
                Ok(tree) => r is Ok && final(self).results() == tree,
                Err(i) => r matches Err(e) && e.kind is ParseError && e.class is Error && (0 <= i
                    < old(self).toks().len() ==> e.span.0 == old(self).toks()[i].begin && e.span.1
                    == old(self).toks()[i].last),
            },
    {
        proof {
            assert(exprs_view(self.stack@) =~= Seq::<SpecExpr>::empty());
            assert(frames_view(self.frames@) =~= Seq::<SpecFrame>::empty());
            assert(exprs_view(self.tree@) =~= Seq::<SpecExpr>::empty());
            assert(self.cfg() == init_cfg());
        }
        loop
            invariant
                self.tokens@ == old(self).tokens@,
                self.pos <= self.tokens@.len(),
                run_from(tokens_view(self.tokens@), self.pos as int, self.cfg()) == spec_parse(
                    old(self).toks(),
                ),
            decreases self.tokens@.len() - self.pos,
        {
            if self.pos >= self.tokens.len() {
                // The token sequence ran out without an accepting EOF step.
                return Err(
                    SkError {
                        class: ErrorClass::Error,
                        kind: ErrorKind::ParseError(
                            String::from_str("the token sequence ends without EOF"),
                        ),
                        span: TokenSpan(0, 0),
                    },
                );
            }
            let r = self.step_once();
            match r {
                StepRes::Go => {
                },
                StepRes::Finished => {
                    return Ok(());
                },
                StepRes::Bad => {
                    let sp = self.tokens[self.pos].span;
                    proof {
                        assert(tokens_view(self.tokens@)[self.pos as int]
                            == self.tokens@[self.pos as int]@);
                    }
                    return Err(
                        SkError {
                            class: ErrorClass::Error,
                            kind: ErrorKind::ParseError(
                                String::from_str("unexpected token for the current construct"),
                            ),
                            span: sp,
                        },
                    );
                },
            }
        }
    }
}

/// The whole frontend in one call: scans the source bytes and parses the
/// token sequence, handing back the ordered top-level trees. Fails with the
/// lex error exactly when the scan fails, and with the parse error exactly
/// when the model parse of the scanned tokens fails.
pub fn parse_source(source: Vec<u8>) -> (r: Result<Vec<Expr>, SkError>)
    ensures
        match crate::lexer::spec_tokenize(source@) {
            Err(at) => r matches Err(e) && e.kind is LexError && e.class is Error && e.span == (
            TokenSpan { 0: at as usize, 1: at as usize }),
            Ok(ts) => match spec_parse(ts) {
                Ok(tree) => r matches Ok(es) && exprs_view(es@) == tree,
                Err(i) => r matches Err(e) && e.kind is ParseError && e.class is Error && (0 <= i
                    < ts.len() ==> e.span.0 == ts[i].begin && e.span.1 == ts[i].last),
            },
        },
{
    let mut lexer = crate::lexer::Lexer::new(source);
    match lexer.tokenize() {
        Err(e) => Err(e),
        Ok(tokens) => {
            let mut parser = Parser::new(tokens);
            match parser.parse() {
                Ok(()) => Ok(parser.into_tree()),
                Err(e) => Err(e),
            }
        },
    }
}

/// The model of a methods-list node agrees with the views of its parts.
proof fn lemma_methods_view(name: &Expr, v: &Vec<Expr>)
    ensures
        expr_view(Expr::ClassMethods(Box::new(*name), *v)) == SpecExpr::ClassMethods(
            Box::new(expr_view(*name)),
            exprs_view(v@),
        ),
{
    assert(expr_view(Expr::ClassMethods(Box::new(*name), *v))->ClassMethods_1 =~= exprs_view(v@));
}

/// The models of the expression-list variants agree with the element views.
pub broadcast proof fn lemma_list_views(v: Vec<Expr>)
    ensures
        #[trigger] expr_view(Expr::BlockExpr(v)) == SpecExpr::BlockExpr(exprs_view(v@)),
        #[trigger] expr_view(Expr::ClassFields(v)) == SpecExpr::ClassFields(exprs_view(v@)),
        #[trigger] expr_view(Expr::ImportArgs(v)) == SpecExpr::ImportArgs(exprs_view(v@)),
        #[trigger] expr_view(Expr::FunctionArgs(v)) == SpecExpr::FunctionArgs(exprs_view(v@)),
{
    assert(expr_view(Expr::BlockExpr(v))->BlockExpr_0 =~= exprs_view(v@));
    assert(expr_view(Expr::ClassFields(v))->ClassFields_0 =~= exprs_view(v@));
    assert(expr_view(Expr::ImportArgs(v))->ImportArgs_0 =~= exprs_view(v@));
    assert(expr_view(Expr::FunctionArgs(v))->FunctionArgs_0 =~= exprs_view(v@));
}

} // verus!
