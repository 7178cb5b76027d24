use vstd::prelude::*;
use vstd::string::*;

use vstd::utf8::*;

use crate::bytes::lemma_ascii_valid_utf8;
use crate::classes::is_ws_byte;
use crate::error::{err_kind, ErrKind, Error};
use crate::ops::{join_from_text, join_text, sign_from_text, sign_text, JoinOp, SignOp};
use crate::classes::is_quote_byte;
use crate::scanner::{
    group_close, in_run_class, lemma_run_end_bounds, lemma_run_in_class, lemma_scan_fn, line_end,
    run_end, scan_fn, RunClass, Scanner,
};
use crate::token::{tok_of, token_print, Tok, TokKind, Token};

verus! {

broadcast use vstd::std_specs::vec::axiom_vec_decreases_to_view;

/// One comparison: left operand, sign operator, right operand.
pub struct Expr {
    pub left: Token,
    pub op: SignOp,
    pub right: Token,
}

impl Default for Expr {
    fn default() -> (r: Expr)
        ensures
            r.zero(),
    {
        Expr { left: Token::Unset, op: SignOp::Unset, right: Token::Unset }
    }
}

/// The printed form of an expression: `{left op right}`.
pub open spec fn expr_print(e: Expr) -> Seq<char> {
    "{"@ + token_print(e.left) + " "@ + sign_text(e.op) + " "@ + token_print(e.right) + "}"@
}

impl Expr {
    /// Nothing has been filled in.
    pub open spec fn zero(&self) -> bool {
        self.left is Unset && self.op == SignOp::Unset && self.right is Unset
    }

    /// Whether nothing has been filled in.
    pub fn is_zero(&self) -> (r: bool)
        ensures
            r == self.zero(),
    {
        let l = match self.left {
            Token::Unset => true,
            _ => false,
        };
        let rt = match self.right {
            Token::Unset => true,
            _ => false,
        };
        l && self.op == SignOp::Unset && rt
    }

    /// Prints the expression as `{left op right}`.
    pub fn to_string(&self) -> (r: String)
        ensures
            r@ == expr_print(*self),
    {
        let mut s = String::from_str("{");
        s.append(self.left.to_string().as_str());
        s.append(" ");
        s.append(self.op.as_str());
        s.append(" ");
        s.append(self.right.to_string().as_str());
        s.append("}");
        s
    }
}

/// One join-tagged unit of a sequence: the join connects it to the unit
/// before it.
pub struct ExprGroup {
    pub join: JoinOp,
    pub item: ExprGroupItem,
}

/// Either a single expression or a nested sequence.
pub enum ExprGroupItem {
    Expr(Expr),
    ExprGroups(ExprGroups),
}

/// An ordered sequence of join-tagged units, in textual order.
pub struct ExprGroups {
    expr_groups: Vec<ExprGroup>,
}

/// The printed form of a sequence: `[{join item} {join item} ...]`.
pub closed spec fn groups_print(g: ExprGroups) -> Seq<char>
    decreases g, 2nat,
{
    "["@ + groups_body(g.expr_groups@) + "]"@
}

/// The printed units of a sequence, separated by single spaces.
pub closed spec fn groups_body(gs: Seq<ExprGroup>) -> Seq<char>
    decreases gs, 1nat,
{
    if gs.len() == 0 {
        Seq::empty()
    } else if gs.len() == 1 {
        group_print(gs[0])
    } else {
        groups_body(gs.drop_last()) + " "@ + group_print(gs.last())
    }
}

/// The printed form of one unit: `{join item}`.
pub closed spec fn group_print(g: ExprGroup) -> Seq<char>
    decreases g, 0nat,
{
    "{"@ + join_text(g.join) + " "@ + match g.item {
        ExprGroupItem::Expr(e) => expr_print(e),
        ExprGroupItem::ExprGroups(sub) => groups_print(sub),
    } + "}"@
}

impl View for ExprGroups {
    type V = Seq<ExprGroup>;

    closed spec fn view(&self) -> Seq<ExprGroup> {
        self.expr_groups@
    }
}

impl ExprGroups {
    /// An empty sequence.
    pub fn new() -> (r: ExprGroups)
        ensures
            r@ == Seq::<ExprGroup>::empty(),
    {
        ExprGroups { expr_groups: Vec::new() }
    }

    /// The units, in order.
    pub fn get(&self) -> (r: &Vec<ExprGroup>)
        ensures
            r@ == self@,
    {
        &self.expr_groups
    }

    /// Appends a unit at the end.
    pub fn push(&mut self, value: ExprGroup)
        ensures
            final(self)@ == old(self)@.push(value),
    {
        self.expr_groups.push(value);
    }

    /// The number of units.
    pub fn len(&self) -> (r: usize)
        ensures
            r == self@.len(),
    {
        self.expr_groups.len()
    }

    /// Prints the sequence as `[{join item} {join item} ...]`.
    pub fn to_string(&self) -> (r: String)
        ensures
            r@ == groups_print(*self),
        decreases self, 2nat,
    {
        let mut s = String::from_str("[");
        let mut i: usize = 0;
        proof {
            reveal_strlit("[");
            assert(self.expr_groups@.subrange(0, 0) =~= Seq::<ExprGroup>::empty());
            assert(s@ =~= "["@ + groups_body(self.expr_groups@.subrange(0, 0)));
        }
        while i < self.expr_groups.len()
            invariant
                i <= self.expr_groups@.len(),
                s@ == "["@ + groups_body(self.expr_groups@.subrange(0, i as int)),
            decreases self.expr_groups@.len() - i,
        {
            let ghost prefix = self.expr_groups@.subrange(0, i as int);
            let ghost next = self.expr_groups@.subrange(0, i + 1);
            assert(next.drop_last() =~= prefix);
            assert(decreases_to!(self => self.expr_groups@[i as int]));
            if i > 0 {
                s.append(" ");
            }
            let g = self.expr_groups[i].to_string();
            s.append(g.as_str());
            proof {
                if i == 0 {
                    assert(prefix =~= Seq::<ExprGroup>::empty());
                    assert(s@ =~= "["@ + groups_body(next));
                } else {
                    assert(s@ =~= "["@ + groups_body(next));
                }
            }
            i = i + 1;
        }
        s.append("]");
        assert(self.expr_groups@.subrange(0, i as int) =~= self.expr_groups@);
        s
    }
}

impl ExprGroup {
    /// Prints the unit as `{join item}`.
    pub fn to_string(&self) -> (r: String)
        ensures
            r@ == group_print(*self),
        decreases self, 0nat,
    {
        let mut s = String::from_str("{");
        s.append(self.join.as_str());
        s.append(" ");
        match &self.item {
            ExprGroupItem::Expr(e) => {
                s.append(e.to_string().as_str());
            },
            ExprGroupItem::ExprGroups(sub) => {
                s.append(sub.to_string().as_str());
            },
        }
        s.append("}");
        s
    }
}

/// The parser's position within an expression.
#[derive(Clone, Copy, PartialEq, Eq, Structural)]
pub enum Step {
    BeforeSign,
    Sign,
    AfterSign,
    Join,
}

/// A unit that holds an expression holds a complete one.
pub open spec fn expr_complete(g: ExprGroup) -> bool {
    match g.item {
        ExprGroupItem::Expr(e) => e.left.is_operand() && e.op != SignOp::Unset
            && e.right.is_operand(),
        ExprGroupItem::ExprGroups(_) => true,
    }
}

/// Every expression of the sequence is complete: two operands and an operator.
pub open spec fn exprs_complete(gs: Seq<ExprGroup>) -> bool {
    forall|i: int|
        0 <= i < gs.len() ==> expr_complete(#[trigger] gs[i])
}

/// From `i` on, the input holds only whitespace and `//` comments
/// (`in_comment`: `i` is inside a comment's line).
pub open spec fn blank_from(s: Seq<u8>, i: int, in_comment: bool) -> bool
    decreases s.len() - i,
{
    if i < 0 || i >= s.len() {
        true
    } else if in_comment {
        blank_from(s, i + 1, s[i] != 0x0a)
    } else if is_ws_byte(s[i]) {
        blank_from(s, i + 1, false)
    } else if s[i] == 0x2f && i + 1 < s.len() && s[i + 1] == 0x2f {
        blank_from(s, i + 2, true)
    } else {
        false
    }
}

/// The input holds nothing but whitespace and `//` comments (the empty input
/// included).
pub open spec fn blank(s: Seq<u8>) -> bool {
    blank_from(s, 0, false)
}

/// The error for a token that does not fit where it stands.
fn unexpected(what: &str, t: &Token) -> (r: Error)
    ensures
        r is Unexpected,
{
    Error::Unexpected(
        String::from_str(what).concat(", got ").concat(t.literal()).concat(" (").concat(
            t.kind(),
        ).concat(")"),
    )
}

/// An expression as a mathematical value.
pub struct ExprModel {
    pub left: Tok,
    pub op: SignOp,
    pub right: Tok,
}

/// A unit's item as a mathematical value.
pub enum ItemModel {
    Expr(ExprModel),
    Groups(Seq<UnitModel>),
}

/// A join-tagged unit as a mathematical value.
pub struct UnitModel {
    pub join: JoinOp,
    pub item: ItemModel,
}

/// The parser state as a mathematical value.
pub struct StateModel {
    pub step: Step,
    pub join: JoinOp,
    pub expr: ExprModel,
}

pub open spec fn expr_model(e: Expr) -> ExprModel {
    ExprModel { left: tok_of(e.left), op: e.op, right: tok_of(e.right) }
}

pub open spec fn state_model(st: ParseState) -> StateModel {
    StateModel { step: st.step, join: st.join, expr: expr_model(st.expr) }
}

/// The model of a unit.
pub closed spec fn unit_model(u: ExprGroup) -> UnitModel
    decreases u, 0nat,
{
    UnitModel {
        join: u.join,
        item: match u.item {
            ExprGroupItem::Expr(e) => ItemModel::Expr(expr_model(e)),
            ExprGroupItem::ExprGroups(g) => ItemModel::Groups(units_model(g.expr_groups@)),
        },
    }
}

/// The models of a sequence of units, in order.
pub closed spec fn units_model(gs: Seq<ExprGroup>) -> Seq<UnitModel>
    decreases gs, 1nat,
{
    if gs.len() == 0 {
        Seq::empty()
    } else {
        units_model(gs.drop_last()).push(unit_model(gs.last()))
    }
}

/// The model of a parsed sequence.
pub closed spec fn groups_model(g: ExprGroups) -> Seq<UnitModel> {
    units_model(g.expr_groups@)
}

proof fn lemma_units_model_push(gs: Seq<ExprGroup>, u: ExprGroup)
    ensures
        units_model(gs.push(u)) == units_model(gs).push(unit_model(u)),
{
    assert(gs.push(u).drop_last() =~= gs);
}

proof fn lemma_units_model_len(gs: Seq<ExprGroup>)
    ensures
        units_model(gs).len() == gs.len(),
    decreases gs.len(),
{
    if gs.len() > 0 {
        lemma_units_model_len(gs.drop_last());
    }
}

/// The tok of an unfilled operand.
pub open spec fn unset_tok() -> Tok {
    Tok { kind: TokKind::Unset, lit: ""@ }
}

pub open spec fn is_operand_tok(t: Tok) -> bool {
    t.kind is Identifier || t.kind is Text || t.kind is Number
}

/// The transition table on models.
pub open spec fn advance_spec(st: StateModel, t: Tok) -> Result<(StateModel, Option<UnitModel>), ErrKind> {
    match st.step {
        Step::BeforeSign => if is_operand_tok(t) {
            Ok((StateModel { step: Step::Sign, join: st.join, expr: ExprModel { left: t, op: SignOp::Unset, right: unset_tok() } }, None))
        } else {
            Err(ErrKind::Unexpected)
        },
        Step::Sign => if t.kind is Sign && sign_from_text(t.lit) is Some {
            Ok((StateModel { step: Step::AfterSign, join: st.join, expr: ExprModel { left: st.expr.left, op: sign_from_text(t.lit)->0, right: st.expr.right } }, None))
        } else {
            Err(ErrKind::Unexpected)
        },
        Step::AfterSign => if is_operand_tok(t) {
            Ok((StateModel { step: Step::Join, join: st.join, expr: ExprModel { left: unset_tok(), op: SignOp::Unset, right: unset_tok() } },
                Some(UnitModel { join: st.join, item: ItemModel::Expr(ExprModel { left: st.expr.left, op: st.expr.op, right: t }) })))
        } else {
            Err(ErrKind::Unexpected)
        },
        Step::Join => if t.kind is Join && join_from_text(t.lit) is Some {
            Ok((StateModel { step: Step::BeforeSign, join: join_from_text(t.lit)->0, expr: st.expr }, None))
        } else {
            Err(ErrKind::Unexpected)
        },
    }
}

/// The end-of-input check on models.
pub open spec fn finish_spec(st: StateModel, units: nat) -> Result<(), ErrKind> {
    if st.step == Step::Join {
        Ok(())
    } else if units == 0 && st.expr.left.kind is Unset && st.expr.op == SignOp::Unset
        && st.expr.right.kind is Unset {
        Err(ErrKind::Empty)
    } else {
        Err(ErrKind::Incomplete)
    }
}

/// The state before the first token.
pub open spec fn initial_state() -> StateModel {
    StateModel {
        step: Step::BeforeSign,
        join: JoinOp::And,
        expr: ExprModel { left: unset_tok(), op: SignOp::Unset, right: unset_tok() },
    }
}

/// Parsing from cursor `c` in state `st` with the units `res` found so far.
/// Whitespace and comments are skipped; a group is parsed on its own and
/// appended when non-empty; other tokens go through the transition table.
/// (The two guarded branches are never taken: a scan that is not at the end
/// advances within the input, and a group is shorter than its input.)
pub open spec fn parse_loop(s: Seq<u8>, c: int, st: StateModel, res: Seq<UnitModel>) -> Result<Seq<UnitModel>, ErrKind>
    decreases s.len(), s.len() - c,
{
    let (c1, r) = scan_fn(s, c);
    match r {
        Err(k) => Err(k),
        Ok(t) => if t.kind is Eof {
            match finish_spec(st, res.len()) {
                Ok(_) => Ok(res),
                Err(k) => Err(k),
            }
        } else if !(0 <= c < c1 <= s.len()) {
            Err(ErrKind::Incomplete)
        } else if t.kind is Ws || t.kind is Comment {
            parse_loop(s, c1, st, res)
        } else if t.kind is Group {
            let g = encode_utf8(t.lit);
            if g.len() >= s.len() {
                Err(ErrKind::Incomplete)
            } else {
                match parse_spec(g) {
                    Err(k) => Err(k),
                    Ok(sub) => parse_loop(
                        s,
                        c1,
                        StateModel { step: Step::Join, join: st.join, expr: st.expr },
                        if sub.len() > 0 {
                            res.push(UnitModel { join: st.join, item: ItemModel::Groups(sub) })
                        } else {
                            res
                        },
                    ),
                }
            }
        } else {
            match advance_spec(st, t) {
                Err(k) => Err(k),
                Ok((next, unit)) => parse_loop(
                    s,
                    c1,
                    next,
                    match unit {
                        Some(u) => res.push(u),
                        None => res,
                    },
                ),
            }
        },
    }
}

/// What parsing the input bytes `s` yields.
pub open spec fn parse_spec(s: Seq<u8>) -> Result<Seq<UnitModel>, ErrKind>
    decreases s.len(), s.len() + 1,
{
    parse_loop(s, 0, initial_state(), Seq::empty())
}

/// The model of a parse's result.
pub open spec fn parse_result_model(r: Result<ExprGroups, Error>) -> Result<Seq<UnitModel>, ErrKind> {
    match r {
        Ok(g) => Ok(groups_model(g)),
        Err(e) => Err(err_kind(e)),
    }
}

/// The step that follows `step` once its token is accepted.
pub open spec fn next_step(step: Step) -> Step {
    match step {
        Step::BeforeSign => Step::Sign,
        Step::Sign => Step::AfterSign,
        Step::AfterSign => Step::Join,
        Step::Join => Step::BeforeSign,
    }
}

/// Whether `step` accepts the token `t`.
pub open spec fn step_accepts(step: Step, t: Token) -> bool {
    match step {
        Step::BeforeSign => t.is_operand(),
        Step::Sign => t is Sign && sign_from_text(t.lit()) is Some,
        Step::AfterSign => t.is_operand(),
        Step::Join => t is Join && join_from_text(t.lit()) is Some,
    }
}

/// The parser state between tokens: the step, the join for the next unit, and
/// the expression being built.
pub struct ParseState {
    pub step: Step,
    pub join: JoinOp,
    pub expr: Expr,
}

/// Feeds one grammatical token (an operand, a sign or a join) to the state
/// machine: an accepted token moves to the next step, and the right operand
/// completes a unit; any other token is `Unexpected`.
pub fn advance(state: ParseState, t: Token) -> (r: Result<(ParseState, Option<ExprGroup>), Error>)
    ensures
        step_accepts(state.step, t) <==> r is Ok,
        !step_accepts(state.step, t) ==> r->Err_0 is Unexpected,
        r matches Ok((next, unit)) ==> {
            &&& next.step == next_step(state.step)
            &&& state.step == Step::BeforeSign ==> next.join == state.join && next.expr == (
            Expr { left: t, op: SignOp::Unset, right: Token::Unset }) && unit is None
            &&& state.step == Step::Sign ==> next.join == state.join && next.expr == (Expr {
                left: state.expr.left,
                op: sign_from_text(t.lit())->0,
                right: state.expr.right,
            }) && unit is None
            &&& state.step == Step::AfterSign ==> next.join == state.join && next.expr.zero()
                && unit == Some(
                ExprGroup {
                    join: state.join,
                    item: ExprGroupItem::Expr(
                        Expr { left: state.expr.left, op: state.expr.op, right: t },
                    ),
                },
            )
            &&& state.step == Step::Join ==> next.join == join_from_text(t.lit())->0
                && next.expr == state.expr && unit is None
        },
        advance_spec(state_model(state), tok_of(t)) == match r {
            Ok((next, unit)) => Ok(
                (
                    state_model(next),
                    match unit {
                        Some(u) => Some(unit_model(u)),
                        None => None,
                    },
                ),
            ),
            Err(e) => Err(err_kind(e)),
        },
{
    let is_operand = matches!(t, Token::Identifier(_)) || matches!(t, Token::Text(_))
        || matches!(t, Token::Number(_));
    match state.step {
        Step::BeforeSign => {
            if !is_operand {
                return Err(unexpected("Expected left operand (identifier, text or number)", &t));
            }
            Ok(
                (
                    ParseState {
                        step: Step::Sign,
                        join: state.join,
                        expr: Expr { left: t, op: SignOp::Unset, right: Token::Unset },
                    },
                    None,
                ),
            )
        },
        Step::Sign => {
            if !matches!(t, Token::Sign(_)) {
                return Err(unexpected("Expected a sign operator", &t));
            }
            let op = match SignOp::from_str(t.literal()) {
                Some(op) => op,
                None => return Err(unexpected("Expected a sign operator", &t)),
            };
            let expr = Expr { left: state.expr.left, op, right: state.expr.right };
            Ok((ParseState { step: Step::AfterSign, join: state.join, expr }, None))
        },
        Step::AfterSign => {
            if !is_operand {
                return Err(unexpected("Expected right operand (identifier, text or number)", &t));
            }
            let unit = ExprGroup {
                join: state.join,
                item: ExprGroupItem::Expr(
                    Expr { left: state.expr.left, op: state.expr.op, right: t },
                ),
            };
            Ok((ParseState { step: Step::Join, join: state.join, expr: Expr::default() }, Some(unit)))
        },
        Step::Join => {
            if !matches!(t, Token::Join(_)) {
                return Err(unexpected("Expected && or ||", &t));
            }
            let join = match JoinOp::from_str(t.literal()) {
                Some(j) => j,
                None => return Err(unexpected("Expected && or ||", &t)),
            };
            Ok((ParseState { step: Step::BeforeSign, join, expr: state.expr }, None))
        },
    }
}

/// The check at the end of the input: only a completed unit may end it.
/// Nothing at all is `Empty`; anything else left open is `Incomplete`.
pub fn finish(step: Step, units: usize, expr: &Expr) -> (r: Result<(), Error>)
    ensures
        step == Step::Join <==> r is Ok,
        step != Step::Join && units == 0 && expr.zero() ==> r->Err_0 is Empty,
        step != Step::Join && !(units == 0 && expr.zero()) ==> r->Err_0 is Incomplete,
{
    if step != Step::Join {
        if units == 0 && expr.is_zero() {
            return Err(Error::Empty(String::from_str("Empty filter expression")));
        }
        return Err(Error::Incomplete(String::from_str("Invalid or incomplete filter expression")));
    }
    Ok(())
}

/// Parses a filter expression into its sequence of join-tagged units;
/// whitespace and comments are skipped, and each group is parsed on its own.
pub fn parse(text: &str) -> (r: Result<ExprGroups, Error>)
    ensures
        parse_result_model(r) == parse_spec(text.spec_bytes()),
        r is Ok ==> r->Ok_0@.len() > 0,
        r is Ok ==> exprs_complete(r->Ok_0@),
        blank(text.spec_bytes()) ==> r is Err && r->Err_0 is Empty,
    decreases text.spec_bytes().len(),
{
    let ghost input = text.spec_bytes();
    proof {
        encode_utf8_valid_utf8(text@);
    }
    let mut result = ExprGroups::new();
    let mut scanner = Scanner::new(text);
    let mut state = ParseState { step: Step::BeforeSign, join: JoinOp::And, expr: Expr::default() };
    loop
        invariant
            scanner.wf(),
            scanner.input() == input,
            input == text.spec_bytes(),
            valid_utf8(input),
            exprs_complete(result@),
            state.step == Step::Sign ==> state.expr.left.is_operand(),
            state.step == Step::AfterSign ==> state.expr.left.is_operand() && state.expr.op
                != SignOp::Unset,
            state.step == Step::Join ==> result@.len() > 0,
            parse_spec(input) == parse_loop(
                input,
                scanner.cursor(),
                state_model(state),
                groups_model(result),
            ),
            blank(input) ==> blank_from(input, scanner.cursor(), false) && state.step
                == Step::BeforeSign && result@.len() == 0 && state.expr.zero(),
        ensures
            scanner.cursor() >= input.len(),
        decreases input.len() - scanner.cursor(),
    {
        let ghost c0 = scanner.cursor();
        proof {
            if blank(input) && c0 < input.len() {
                lemma_blank_step(input, c0);
            }
        }
        let scanned = scanner.scan();
        proof {
            lemma_scan_fn(input, c0, scanner.cursor(), scanned);
        }
        let t = match scanned {
            Ok(t) => t,
            Err(e) => return Err(e),
        };
        if matches!(t, Token::Eof(_)) {
            break;
        }
        if matches!(t, Token::Ws(_)) || matches!(t, Token::Comment(_)) {
            continue;
        }
        if matches!(t, Token::Group(_)) {
            let group_result = match parse(t.literal()) {
                Ok(g) => g,
                Err(e) => return Err(e),
            };
            proof {
                lemma_units_model_len(group_result.expr_groups@);
            }
            // a successful parse is never empty, so this always appends
            if group_result.len() > 0 {
                let ghost u = ExprGroup {
                    join: state.join,
                    item: ExprGroupItem::ExprGroups(group_result),
                };
                proof {
                    lemma_units_model_push(result.expr_groups@, u);
                }
                result.push(
                    ExprGroup { join: state.join, item: ExprGroupItem::ExprGroups(group_result) },
                );
            }
            state.step = Step::Join;
            continue;
        }
        let (next, unit) = match advance(state, t) {
            Ok(x) => x,
            Err(e) => return Err(e),
        };
        if let Some(u) = unit {
            proof {
                lemma_units_model_push(result.expr_groups@, u);
            }
            result.push(u);
        }
        state = next;
    }
    proof {
        lemma_units_model_len(result.expr_groups@);
    }
    match finish(state.step, result.len(), &state.expr) {
        Ok(()) => Ok(result),
        Err(e) => Err(e),
    }
}

/// One scan inside blank input yields whitespace or a comment, and the input
/// stays blank from where it leaves the cursor.
proof fn lemma_blank_step(s: Seq<u8>, c0: int)
    requires
        valid_utf8(s),
        0 <= c0 < s.len(),
        blank_from(s, c0, false),
    ensures
        is_ws_byte(s[c0]) ==> valid_utf8(s.subrange(c0, run_end(s, c0, RunClass::Whitespace)))
            && blank_from(s, run_end(s, c0, RunClass::Whitespace), false),
        !is_ws_byte(s[c0]) ==> s[c0] == 0x2f && c0 + 1 < s.len() && s[c0 + 1] == 0x2f
            && valid_utf8(s.subrange(c0 + 2, line_end(s, c0 + 2))) && blank_from(
            s,
            if line_end(s, c0 + 2) < s.len() {
                line_end(s, c0 + 2) + 1
            } else {
                line_end(s, c0 + 2)
            },
            false,
        ),
{
    if is_ws_byte(s[c0]) {
        let e = run_end(s, c0, RunClass::Whitespace);
        lemma_run_end_bounds(s, c0, RunClass::Whitespace);
        lemma_blank_across_whitespace(s, c0);
        lemma_run_in_class(s, c0, RunClass::Whitespace);
        let b = s.subrange(c0, e);
        assert forall|k: int| 0 <= k < b.len() implies #[trigger] b[k] < 0x80 by {
            assert(in_run_class(RunClass::Whitespace, s[c0 + k]));
        }
        lemma_ascii_valid_utf8(b);
    } else {
        lemma_blank_across_comment(s, c0 + 2);
        lemma_line_end_bounds(s, c0 + 2);
        let e = line_end(s, c0 + 2);
        // the suffix after `/` is valid, and so is the one after `//`
        is_char_boundary_iff_is_leading_byte(s, c0 + 1);
        valid_utf8_split(s, c0 + 1);
        let t = s.subrange(c0 + 1, s.len() as int);
        assert(t[0] == 0x2f);
        assert(pop_first_scalar(t) =~= s.subrange(c0 + 2, s.len() as int));
        let u = s.subrange(c0 + 2, s.len() as int);
        assert(valid_utf8(u));
        if e < s.len() {
            assert(u[e - (c0 + 2)] == 0x0a);
            is_char_boundary_iff_is_leading_byte(u, e - (c0 + 2));
        } else {
            is_char_boundary_start_end_of_seq(u);
        }
        valid_utf8_split(u, e - (c0 + 2));
        assert(u.subrange(0, e - (c0 + 2)) =~= s.subrange(c0 + 2, e));
    }
}

/// Blank input stays blank past a run of whitespace.
proof fn lemma_blank_across_whitespace(s: Seq<u8>, i: int)
    requires
        0 <= i <= s.len(),
        blank_from(s, i, false),
    ensures
        blank_from(s, run_end(s, i, RunClass::Whitespace), false),
    decreases s.len() - i,
{
    if i < s.len() && is_ws_byte(s[i]) {
        lemma_blank_across_whitespace(s, i + 1);
    }
}

/// Blank input inside a comment stays blank past the end of its line.
proof fn lemma_blank_across_comment(s: Seq<u8>, i: int)
    requires
        0 <= i <= s.len(),
        blank_from(s, i, true),
    ensures
        blank_from(
            s,
            if line_end(s, i) < s.len() {
                line_end(s, i) + 1
            } else {
                line_end(s, i)
            },
            false,
        ),
    decreases s.len() - i,
{
    if i < s.len() && s[i] != 0x0a {
        lemma_blank_across_comment(s, i + 1);
    }
}

/// A line ends within the input, at or after where the search starts.
proof fn lemma_line_end_bounds(s: Seq<u8>, i: int)
    requires
        0 <= i <= s.len(),
    ensures
        i <= line_end(s, i) <= s.len(),
        line_end(s, i) < s.len() ==> s[line_end(s, i)] == 0x0a,
    decreases s.len() - i,
{
    if i < s.len() && s[i] != 0x0a {
        lemma_line_end_bounds(s, i + 1);
    }
}

/// `n` pairs of brackets around `e`.
pub open spec fn wrap(e: Seq<u8>, n: nat) -> Seq<u8>
    decreases n,
{
    if n == 0 {
        e
    } else {
        seq![0x28u8] + wrap(e, (n - 1) as nat) + seq![0x29u8]
    }
}

/// `n` levels of nested groups around the units `u`.
pub open spec fn nest(u: Seq<UnitModel>, n: nat) -> Seq<UnitModel>
    decreases n,
{
    if n == 0 {
        u
    } else {
        seq![UnitModel { join: JoinOp::And, item: ItemModel::Groups(nest(u, (n - 1) as nat)) }]
    }
}

/// No bracket and no quote in the bytes.
pub open spec fn plain(e: Seq<u8>) -> bool {
    forall|k: int|
        0 <= k < e.len() ==> #[trigger] e[k] != 0x28 && e[k] != 0x29 && !is_quote_byte(e[k])
}

/// Wrapping a single expression in `n` pairs of brackets parses to that
/// expression nested `n` groups deep. Shown for expression text without
/// brackets or quotes.
pub proof fn lemma_balanced_groups(e: Seq<u8>, n: nat)
    requires
        valid_utf8(e),
        plain(e),
        parse_spec(e) is Ok,
        parse_spec(e)->Ok_0.len() == 1,
    ensures
        parse_spec(wrap(e, n)) == Ok::<Seq<UnitModel>, ErrKind>(nest(parse_spec(e)->Ok_0, n)),
    decreases n,
{
    if n > 0 {
        let w = wrap(e, (n - 1) as nat);
        let s = wrap(e, n);
        lemma_balanced_groups(e, (n - 1) as nat);
        lemma_wrap_valid(e, (n - 1) as nat);
        assert(s =~= seq![0x28u8] + w + seq![0x29u8]);
        assert(s.subrange(1, 1 + w.len() as int) =~= w);
        lemma_group_close_skip(s, 1, e, (n - 1) as nat, 1);
        assert(s[1 + w.len() as int] == 0x29);
        assert(group_close(s, 1, 1, 0, 0) == w.len() + 1);
        assert(s.subrange(1, w.len() + 1int) =~= w);
        decode_utf8_encode_utf8(w);
        let sub = nest(parse_spec(e)->Ok_0, (n - 1) as nat);
        assert(sub.len() > 0);
        let st = StateModel { step: Step::Join, join: JoinOp::And, expr: initial_state().expr };
        let unit = UnitModel { join: JoinOp::And, item: ItemModel::Groups(sub) };
        assert(parse_loop(s, s.len() as int, st, seq![unit]) == Ok::<Seq<UnitModel>, ErrKind>(seq![unit]));
        assert(parse_spec(s) == parse_loop(s, s.len() as int, st, Seq::<UnitModel>::empty().push(unit)));
        assert(Seq::<UnitModel>::empty().push(unit) =~= seq![unit]);
    }
}

/// One opening bracket more than closing ones, before a bracketed
/// expression, is an `Invalid` group. Shown for expression text without
/// brackets or quotes.
pub proof fn lemma_unclosed_group(e: Seq<u8>, n: nat)
    requires
        plain(e),
    ensures
        parse_spec(seq![0x28u8] + wrap(e, n)) == Err::<Seq<UnitModel>, ErrKind>(ErrKind::Invalid),
{
    let w = wrap(e, n);
    let s = seq![0x28u8] + w;
    assert(s.subrange(1, 1 + w.len() as int) =~= w);
    lemma_group_close_skip(s, 1, e, n, 1);
    assert(group_close(s, 1, 1, 0, 0) == -1);
}

proof fn lemma_wrap_valid(e: Seq<u8>, n: nat)
    requires
        valid_utf8(e),
    ensures
        valid_utf8(wrap(e, n)),
    decreases n,
{
    if n > 0 {
        lemma_wrap_valid(e, (n - 1) as nat);
        lemma_ascii_valid_utf8(seq![0x28u8]);
        lemma_ascii_valid_utf8(seq![0x29u8]);
        valid_utf8_concat(seq![0x28u8], wrap(e, (n - 1) as nat));
        valid_utf8_concat(seq![0x28u8] + wrap(e, (n - 1) as nat), seq![0x29u8]);
    }
}

/// Searching for a group's end passes over a bracketed copy of `e` and comes
/// back at the same depth.
proof fn lemma_group_close_skip(s: Seq<u8>, i: int, e: Seq<u8>, n: nat, d: int)
    requires
        d >= 1,
        plain(e),
        0 <= i,
        i + wrap(e, n).len() <= s.len(),
        s.subrange(i, i + wrap(e, n).len()) == wrap(e, n),
    ensures
        group_close(s, i, d, 0, 0) == group_close(s, i + wrap(e, n).len(), d, 0, 0),
    decreases n,
{
    let w = wrap(e, n);
    if n == 0 {
        assert forall|k: int| i <= k < i + e.len() implies #[trigger] s[k] != 0x28 && s[k] != 0x29
            && !is_quote_byte(s[k]) by {
            assert(s[k] == s.subrange(i, i + e.len())[k - i]);
        }
        lemma_group_close_plain(s, i, i + e.len(), d);
    } else {
        let inner = wrap(e, (n - 1) as nat);
        assert(w =~= seq![0x28u8] + inner + seq![0x29u8]);
        assert(s[i] == w[0]);
        assert forall|k: int| 0 <= k < inner.len() implies s.subrange(i + 1, i + 1 + inner.len())[k]
            == inner[k] by {
            assert(s[i + 1 + k] == s.subrange(i, i + w.len())[1 + k]);
            assert(w[1 + k] == inner[k]);
        }
        assert(s.subrange(i + 1, i + 1 + inner.len()) =~= inner);
        lemma_group_close_skip(s, i + 1, e, (n - 1) as nat, d + 1);
        assert(s[i + 1 + inner.len()] == w[1 + inner.len() as int]);
    }
}

/// Searching for a group's end passes over bytes that are neither brackets nor quotes.
proof fn lemma_group_close_plain(s: Seq<u8>, i: int, j: int, d: int)
    requires
        0 <= i <= j <= s.len(),
        forall|k: int| i <= k < j ==> #[trigger] s[k] != 0x28 && s[k] != 0x29 && !is_quote_byte(s[k]),
    ensures
        group_close(s, i, d, 0, 0) == group_close(s, j, d, 0, 0),
    decreases j - i,
{
    if i < j {
        lemma_group_close_plain(s, i + 1, j, d);
    }
}

} // verus!
