//! Left-to-right arithmetic expression evaluator.
//!
//! An expression is a string of operand tokens (runs of digits with at
//! most one decimal separator, `.` or `,`) and the four operator
//! characters `+ - * /`.  Evaluation is a strict left fold: there is no
//! operator precedence and there are no parentheses, so `10+10*2`
//! means `(10+10)*2`.  Any other character ends the current operand
//! token and is otherwise ignored as a separator.
//!
//! The evaluator returns an [`Expr`]: the first operand together with
//! the operator/operand steps to apply to it, in order.  Carrying out
//! the steps in machine arithmetic is left to the caller, so that this
//! module stays a pure function of the input text.

use vstd::prelude::*;

verus! {

/// One of the four arithmetic operators an expression may use.
#[derive(Clone, Copy, Debug, PartialEq, Eq, Structural)]
pub enum Operator {
    Add,
    Sub,
    Mul,
    Div,
}

/// Why an expression was rejected.
#[derive(Clone, Copy, Debug, PartialEq, Eq, Structural)]
pub enum CalcError {
    /// An operand token carried more than one decimal separator.
    MalformedNumber,
    /// Operands and operators were left over in a shape that cannot
    /// be folded into a single value, such as a dangling operator.
    UnexpectedShape,
}

/// Which operator, if any, a character denotes.
pub open spec fn spec_operator_of(c: char) -> Option<Operator> {
    if c == '+' {
        Some(Operator::Add)
    } else if c == '-' {
        Some(Operator::Sub)
    } else if c == '*' {
        Some(Operator::Mul)
    } else if c == '/' {
        Some(Operator::Div)
    } else {
        None
    }
}

impl Operator {
    /// The operator a character denotes, if any.
    pub fn from(c: &char) -> (r: Option<Operator>)
        ensures
            r == spec_operator_of(*c),
    {
        match *c {
            '+' => Some(Operator::Add),
            '-' => Some(Operator::Sub),
            '*' => Some(Operator::Mul),
            '/' => Some(Operator::Div),
            _ => None,
        }
    }
}

pub open spec fn is_digit(c: char) -> bool {
    48 <= c as u32 && c as u32 <= 57
}

pub open spec fn is_separator(c: char) -> bool {
    c == '.' || c == ','
}

pub open spec fn is_operand_char(c: char) -> bool {
    is_digit(c) || is_separator(c)
}

/// How many decimal separators a token carries.
pub open spec fn separators_in(t: Seq<char>) -> nat
    decreases t.len(),
{
    if t.len() == 0 {
        0
    } else {
        separators_in(t.drop_last()) + if is_separator(t.last()) {
            1nat
        } else {
            0nat
        }
    }
}

/// A well-formed operand token: it starts with a digit, consists of
/// digits and decimal separators only, and carries at most one
/// separator.  Every such token denotes a decimal number.
pub open spec fn numeric_token(t: Seq<char>) -> bool {
    &&& t.len() > 0
    &&& is_digit(t[0])
    &&& forall|i: int| 0 <= i < t.len() ==> is_operand_char(#[trigger] t[i])
    &&& separators_in(t) <= 1
}

/// The outcome of evaluating an expression: the first operand and the
/// operator/operand steps to fold over it from left to right.
pub ghost struct Plan {
    pub first: Seq<char>,
    pub steps: Seq<(Operator, Seq<char>)>,
}

/// Every operand of the plan is a well-formed token.
pub open spec fn plan_wf(p: Plan) -> bool {
    &&& numeric_token(p.first)
    &&& forall|i: int| 0 <= i < p.steps.len() ==> numeric_token(#[trigger] p.steps[i].1)
}

/// The state of the scan: the operand run currently being read, the
/// plan folded so far, a second operand pending without an operator,
/// the pending operator, and whether the scan can no longer succeed.
pub ghost struct Scan {
    pub cur: Option<Seq<char>>,
    pub acc: Option<Plan>,
    pub orphan: Option<Seq<char>>,
    pub op: Option<Operator>,
    pub dead: bool,
    pub bad: bool,
}

pub open spec fn scan_init() -> Scan {
    Scan { cur: None, acc: None, orphan: None, op: None, dead: false, bad: false }
}

/// A finished operand token enters the fold.  The first operand opens
/// the plan; with an operator pending, the token is folded in at once;
/// without one, it is held back; a third pending operand can never be
/// folded, so the scan is dead from then on.
pub open spec fn scan_feed(st: Scan, t: Seq<char>) -> Scan {
    match st.acc {
        None => Scan { acc: Some(Plan { first: t, steps: Seq::empty() }), ..st },
        Some(p) => match (st.op, st.orphan) {
            (Some(o), None) => Scan {
                acc: Some(Plan { first: p.first, steps: p.steps.push((o, t)) }),
                op: None,
                ..st
            },
            (None, None) => Scan { orphan: Some(t), ..st },
            _ => Scan { dead: true, ..st },
        },
    }
}

/// The current operand run, if any, ends here: a well-formed token
/// enters the fold, a malformed one marks the scan bad.
pub open spec fn scan_flush(st: Scan) -> Scan {
    match st.cur {
        None => st,
        Some(t) => if numeric_token(t) {
            scan_feed(Scan { cur: None, ..st }, t)
        } else {
            Scan { cur: None, bad: true, ..st }
        },
    }
}

/// One character of the scan.  Digits open or extend an operand run;
/// separators extend one (a leading separator is dropped); an operator
/// character ends the run and becomes the pending operator, replacing
/// any earlier one; every other character merely ends the run.
pub open spec fn scan_step(st: Scan, c: char) -> Scan {
    if is_digit(c) {
        match st.cur {
            None => Scan { cur: Some(seq![c]), ..st },
            Some(t) => Scan { cur: Some(t.push(c)), ..st },
        }
    } else if is_separator(c) {
        match st.cur {
            None => st,
            Some(t) => Scan { cur: Some(t.push(c)), ..st },
        }
    } else {
        match spec_operator_of(c) {
            Some(o) => Scan { op: Some(o), ..scan_flush(st) },
            None => scan_flush(st),
        }
    }
}

/// The scan state after the first `i` characters of `s`.
pub open spec fn scan_from(st: Scan, s: Seq<char>, i: int) -> Scan
    decreases i,
{
    if i <= 0 {
        st
    } else {
        scan_step(scan_from(st, s, i - 1), s[i - 1])
    }
}

/// End of input: the last operand run ends, and the fold must have
/// come out even.  A sole operand is a valid expression; a pending
/// operator may still consume a held-back operand; anything else is a
/// shape error, and a malformed token anywhere is a number error.
pub open spec fn scan_finish(st: Scan) -> Result<Plan, CalcError> {
    let st1 = scan_flush(st);
    if st1.bad {
        Err(CalcError::MalformedNumber)
    } else if st1.dead {
        Err(CalcError::UnexpectedShape)
    } else {
        match (st1.acc, st1.orphan, st1.op) {
            (Some(p), None, None) => Ok(p),
            (Some(p), Some(t), Some(o)) => Ok(
                Plan { first: p.first, steps: p.steps.push((o, t)) },
            ),
            _ => Err(CalcError::UnexpectedShape),
        }
    }
}

/// What evaluating an expression yields.
pub open spec fn spec_calc(s: Seq<char>) -> Result<Plan, CalcError> {
    scan_finish(scan_from(scan_init(), s, s.len() as int))
}

/// An evaluated expression: the first operand token and the
/// operator/operand steps to apply to it, from left to right.
#[derive(Debug)]
pub struct Expr {
    pub first: String,
    pub steps: Vec<(Operator, String)>,
}

impl View for Expr {
    type V = Plan;

    open spec fn view(&self) -> Plan {
        Plan {
            first: self.first@,
            steps: Seq::new(self.steps@.len(), |i: int| (self.steps@[i].0, self.steps@[i].1@)),
        }
    }
}

/// The fold in progress: the executable image of a [`Scan`] whose
/// operand run has just been flushed.
struct Machine {
    acc: Option<Expr>,
    orphan: Option<String>,
    op: Option<Operator>,
    dead: bool,
}

spec fn opt_expr_view(e: Option<Expr>) -> Option<Plan> {
    match e {
        None => None,
        Some(x) => Some(x@),
    }
}

spec fn opt_string_view(s: Option<String>) -> Option<Seq<char>> {
    match s {
        None => None,
        Some(x) => Some(x@),
    }
}

spec fn machine_view(m: Machine) -> Scan {
    Scan {
        cur: None,
        acc: opt_expr_view(m.acc),
        orphan: opt_string_view(m.orphan),
        op: m.op,
        dead: m.dead,
        bad: false,
    }
}

spec fn machine_wf(m: Machine) -> bool {
    &&& match m.acc {
        Some(e) => plan_wf(e@),
        None => true,
    }
    &&& match m.orphan {
        Some(t) => numeric_token(t@),
        None => true,
    }
}

impl Machine {
    fn new() -> (r: Machine)
        ensures
            machine_view(r) == scan_init(),
            machine_wf(r),
    {
        Machine { acc: None, orphan: None, op: None, dead: false }
    }

    fn feed(&mut self, t: String)
        requires
            numeric_token(t@),
            machine_wf(*old(self)),
        ensures
            machine_view(*final(self)) == scan_feed(machine_view(*old(self)), t@),
            machine_wf(*final(self)),
    {
        if self.acc.is_none() {
            self.acc = Some(Expr { first: t, steps: Vec::new() });
            proof {
                let e = self.acc.unwrap();
                assert(e@.steps =~= Seq::<(Operator, Seq<char>)>::empty());
            }
        } else if self.op.is_some() && self.orphan.is_none() {
            let o = self.op.unwrap();
            self.op = None;
            let ghost before = self.acc.unwrap()@;
            match &mut self.acc {
                Some(e) => {
                    e.steps.push((o, t));
                    proof {
                        assert(e@.steps =~= before.steps.push((o, t@)));
                    }
                },
                None => {},
            }
        } else if self.orphan.is_none() {
            self.orphan = Some(t);
        } else {
            self.dead = true;
        }
    }

    fn set_op(&mut self, o: Operator)
        ensures
            machine_view(*final(self)) == (Scan { op: Some(o), ..machine_view(*old(self)) }),
            machine_wf(*old(self)) ==> machine_wf(*final(self)),
    {
        self.op = Some(o);
    }

    fn finish(self) -> (r: Result<Expr, CalcError>)
        requires
            machine_wf(self),
        ensures
            match r {
                Ok(e) => scan_finish(machine_view(self)) == Ok::<Plan, CalcError>(e@)
                    && plan_wf(e@),
                Err(err) => scan_finish(machine_view(self)) == Err::<Plan, CalcError>(err),
            },
    {
        if self.dead {
            return Err(CalcError::UnexpectedShape);
        }
        match (self.acc, self.orphan, self.op) {
            (Some(e), None, None) => Ok(e),
            (Some(e), Some(t), Some(o)) => {
                let ghost before = e@;
                let mut e = e;
                e.steps.push((o, t));
                proof {
                    assert(e@.steps =~= before.steps.push((o, t@)));
                }
                Ok(e)
            },
            _ => Err(CalcError::UnexpectedShape),
        }
    }
}

/// The operand run in progress, as the scan model sees it.
spec fn cur_of(s: Seq<char>, start: Option<usize>, i: int) -> Option<Seq<char>> {
    match start {
        None => None,
        Some(p) => Some(s.subrange(p as int, i)),
    }
}

/// A scan marked bad stays bad.
proof fn lemma_bad_monotone(s: Seq<char>, i: int, j: int)
    requires
        0 <= i <= j,
        scan_from(scan_init(), s, i).bad,
    ensures
        scan_from(scan_init(), s, j).bad,
    decreases j - i,
{
    if i < j {
        lemma_bad_monotone(s, i, j - 1);
        let st = scan_from(scan_init(), s, j - 1);
        assert(scan_step(st, s[j - 1]).bad);
    }
}

/// A scan marked bad ends in a number error.
proof fn lemma_bad_finish(s: Seq<char>)
    requires
        scan_from(scan_init(), s, s.len() as int).bad,
    ensures
        spec_calc(s) == Err::<Plan, CalcError>(CalcError::MalformedNumber),
{
    let st = scan_from(scan_init(), s, s.len() as int);
    assert(scan_flush(st).bad);
}

/// Scans over prefix-equal inputs agree.
proof fn lemma_scan_agree(st: Scan, a: Seq<char>, b: Seq<char>, i: int)
    requires
        0 <= i <= a.len(),
        i <= b.len(),
        a.take(i) == b.take(i),
    ensures
        scan_from(st, a, i) == scan_from(st, b, i),
    decreases i,
{
    if i > 0 {
        assert(a.take(i - 1) =~= b.take(i - 1)) by {
            assert forall|k: int| 0 <= k < i - 1 implies #[trigger] a.take(i - 1)[k] == b.take(
                i - 1,
            )[k] by {
                assert(a.take(i)[k] == b.take(i)[k]);
            }
        };
        lemma_scan_agree(st, a, b, i - 1);
        assert(a.take(i)[i - 1] == a[i - 1]);
        assert(b.take(i)[i - 1] == b[i - 1]);
        assert(a[i - 1] == b[i - 1]);
        assert(scan_from(st, a, i) == scan_step(scan_from(st, a, i - 1), a[i - 1]));
        assert(scan_from(st, b, i) == scan_step(scan_from(st, b, i - 1), b[i - 1]));
    }
}

/// A scan over concatenated input splits at the seam.
proof fn lemma_scan_split(st: Scan, a: Seq<char>, b: Seq<char>, i: int)
    requires
        0 <= i <= b.len(),
    ensures
        scan_from(st, a + b, a.len() + i) == scan_from(
            scan_from(st, a, a.len() as int),
            b,
            i,
        ),
    decreases i,
{
    if i == 0 {
        assert((a + b).take(a.len() as int) =~= a.take(a.len() as int));
        lemma_scan_agree(st, a + b, a, a.len() as int);
    } else {
        lemma_scan_split(st, a, b, i - 1);
        assert((a + b)[a.len() + i - 1] == b[i - 1]);
    }
}

/// Scanning an unbroken operand run accumulates exactly that run.
proof fn lemma_scan_operand(st: Scan, t: Seq<char>, i: int)
    requires
        st.cur is None,
        t.len() > 0,
        is_digit(t[0]),
        forall|k: int| 0 <= k < t.len() ==> is_operand_char(#[trigger] t[k]),
        1 <= i <= t.len(),
    ensures
        scan_from(st, t, i) == (Scan { cur: Some(t.take(i)), ..st }),
    decreases i,
{
    if i == 1 {
        assert(t.take(1) =~= seq![t[0]]);
    } else {
        lemma_scan_operand(st, t, i - 1);
        assert(is_operand_char(t[i - 1]));
        assert(t.take(i - 1).push(t[i - 1]) =~= t.take(i));
    }
}

/// The expression text that spells a first operand and then each
/// operator/operand pair in writing order.
pub open spec fn chain_text(first: Seq<char>, rest: Seq<(char, Seq<char>)>) -> Seq<char>
    decreases rest.len(),
{
    if rest.len() == 0 {
        first
    } else {
        chain_text(first, rest.drop_last()) + seq![rest.last().0] + rest.last().1
    }
}

/// Every pair of the chain holds an operator character and a
/// well-formed operand token.
pub open spec fn chain_ok(rest: Seq<(char, Seq<char>)>) -> bool {
    forall|i: int|
        0 <= i < rest.len() ==> spec_operator_of(#[trigger] rest[i].0) is Some && numeric_token(
            rest[i].1,
        )
}

/// The fold steps the chain's pairs denote, in order.
pub open spec fn chain_steps(rest: Seq<(char, Seq<char>)>) -> Seq<(Operator, Seq<char>)> {
    Seq::new(rest.len(), |i: int| (spec_operator_of(rest[i].0)->0, rest[i].1))
}

/// The scan state midway through a chain: the latest operand still
/// open, everything before it already folded, its operator pending.
proof fn lemma_scan_chain(first: Seq<char>, rest: Seq<(char, Seq<char>)>)
    requires
        numeric_token(first),
        chain_ok(rest),
    ensures
        rest.len() == 0 ==> scan_from(
            scan_init(),
            chain_text(first, rest),
            chain_text(first, rest).len() as int,
        ) == (Scan { cur: Some(first), ..scan_init() }),
        rest.len() > 0 ==> scan_from(
            scan_init(),
            chain_text(first, rest),
            chain_text(first, rest).len() as int,
        ) == (Scan {
            cur: Some(rest.last().1),
            acc: Some(Plan { first, steps: chain_steps(rest.drop_last()) }),
            orphan: None,
            op: Some(spec_operator_of(rest.last().0)->0),
            dead: false,
            bad: false,
        }),
    decreases rest.len(),
{
    if rest.len() == 0 {
        lemma_scan_operand(scan_init(), first, first.len() as int);
        assert(first.take(first.len() as int) =~= first);
    } else {
        let prev = rest.drop_last();
        let c = rest.last().0;
        let t = rest.last().1;
        let o = spec_operator_of(c)->0;
        let p = chain_text(first, prev);
        let s = chain_text(first, rest);
        lemma_scan_chain(first, prev);
        let st_p = scan_from(scan_init(), p, p.len() as int);

        // the pending operand folds in at the operator character
        let st_c = scan_step(st_p, c);
        assert(rest.last() == rest[rest.len() - 1]);
        assert(spec_operator_of(c) is Some);
        assert(!is_digit(c) && !is_separator(c));
        if prev.len() > 0 {
            assert(prev.last() == rest[prev.len() - 1]);
            assert(chain_steps(prev.drop_last()).push(
                (spec_operator_of(prev.last().0)->0, prev.last().1),
            ) =~= chain_steps(prev));
            assert(numeric_token(prev.last().1));
        } else {
            assert(chain_steps(prev) =~= Seq::<(Operator, Seq<char>)>::empty());
        }
        assert(st_c == (Scan {
            cur: None,
            acc: Some(Plan { first, steps: chain_steps(prev) }),
            orphan: None,
            op: Some(o),
            dead: false,
            bad: false,
        }));

        // then the last operand opens a fresh run
        lemma_scan_operand(st_c, t, t.len() as int);
        assert(t.take(t.len() as int) =~= t);

        // stitch: the chain is the shorter chain, the operator
        // character, and the last operand
        assert(s =~= p + (seq![c] + t));
        lemma_scan_split(scan_init(), p, seq![c] + t, 1 + t.len() as int);
        lemma_scan_agree(
            scan_init(),
            s,
            p + (seq![c] + t),
            s.len() as int,
        );
        assert(s.take(s.len() as int) =~= (p + (seq![c] + t)).take(s.len() as int));
        lemma_scan_split(st_p, seq![c], t, t.len() as int);
        assert(seq![c][0] == c);
        assert(scan_from(st_p, seq![c], 0) == st_p);
        assert(scan_from(st_p, seq![c], 1) == st_c);
        assert(scan_from(scan_init(), s, s.len() as int) == scan_from(st_c, t, t.len() as int));
    }
}

/// Any well-formed chain of operands and operators evaluates to the
/// strict left fold of its operator/operand pairs, in writing order —
/// however many pairs there are, and whatever the operators.
pub proof fn lemma_chain_left_fold(first: Seq<char>, rest: Seq<(char, Seq<char>)>)
    requires
        numeric_token(first),
        chain_ok(rest),
    ensures
        spec_calc(chain_text(first, rest)) == Ok::<Plan, CalcError>(
            Plan { first, steps: chain_steps(rest) },
        ),
{
    lemma_scan_chain(first, rest);
    if rest.len() == 0 {
        assert(chain_steps(rest) =~= Seq::<(Operator, Seq<char>)>::empty());
    } else {
        assert(numeric_token(rest.last().1));
        assert(chain_steps(rest.drop_last()).push(
            (spec_operator_of(rest.last().0)->0, rest.last().1),
        ) =~= chain_steps(rest));
    }
}

/// A single well-formed operand token is a valid expression on its
/// own and evaluates to itself, with no fold steps.
pub proof fn lemma_single_operand(t: Seq<char>)
    requires
        numeric_token(t),
    ensures
        spec_calc(t) == Ok::<Plan, CalcError>(Plan { first: t, steps: Seq::empty() }),
{
    let rest = Seq::<(char, Seq<char>)>::empty();
    lemma_chain_left_fold(t, rest);
    assert(chain_steps(rest) =~= Seq::<(Operator, Seq<char>)>::empty());
}

/// A dangling operator is a shape error: however long the chain of
/// operands folded so far, an expression that ends on an operator
/// character fails.
pub proof fn lemma_dangling_operator(
    first: Seq<char>,
    rest: Seq<(char, Seq<char>)>,
    c: char,
    o: Operator,
)
    requires
        numeric_token(first),
        chain_ok(rest),
        spec_operator_of(c) == Some(o),
    ensures
        spec_calc(chain_text(first, rest) + seq![c]) == Err::<Plan, CalcError>(
            CalcError::UnexpectedShape,
        ),
{
    let p = chain_text(first, rest);
    let s = p + seq![c];
    lemma_scan_chain(first, rest);
    let st_p = scan_from(scan_init(), p, p.len() as int);
    lemma_scan_split(scan_init(), p, seq![c], 1);
    assert(seq![c][0] == c);
    assert(scan_from(st_p, seq![c], 0) == st_p);
    assert(scan_from(st_p, seq![c], 1) == scan_step(st_p, c));
    assert(scan_from(scan_init(), s, s.len() as int) == scan_step(st_p, c));
    assert(!is_digit(c) && !is_separator(c));
    if rest.len() > 0 {
        assert(rest.last() == rest[rest.len() - 1]);
        assert(numeric_token(rest.last().1));
    }
}

/// Evaluation of `a OP1 b OP2 c` is a strict left fold: the plan
/// applies OP1 with `b` first and OP2 with `c` second, whatever the
/// two operators are — conventional precedence is never respected.
pub proof fn lemma_three_operand_left_fold(
    a: Seq<char>,
    c1: char,
    o1: Operator,
    b: Seq<char>,
    c2: char,
    o2: Operator,
    c: Seq<char>,
)
    requires
        numeric_token(a),
        numeric_token(b),
        numeric_token(c),
        spec_operator_of(c1) == Some(o1),
        spec_operator_of(c2) == Some(o2),
    ensures
        spec_calc(a + seq![c1] + b + seq![c2] + c) == Ok::<Plan, CalcError>(
            Plan { first: a, steps: seq![(o1, b), (o2, c)] },
        ),
{
    let rest: Seq<(char, Seq<char>)> = seq![(c1, b), (c2, c)];
    assert(chain_ok(rest)) by {
        assert(rest[0] == (c1, b));
        assert(rest[1] == (c2, c));
    };
    lemma_chain_left_fold(a, rest);
    let r1: Seq<(char, Seq<char>)> = seq![(c1, b)];
    assert(rest.drop_last() =~= r1);
    assert(r1.drop_last() =~= Seq::<(char, Seq<char>)>::empty());
    assert(r1.last() == (c1, b));
    assert(rest.last() == (c2, c));
    assert(chain_text(a, Seq::<(char, Seq<char>)>::empty()) == a);
    assert(chain_text(a, r1) == a + seq![c1] + b);
    assert(chain_text(a, rest) == chain_text(a, r1) + seq![c2] + c);
    assert(chain_text(a, rest) =~= a + seq![c1] + b + seq![c2] + c);
    assert(chain_steps(rest) =~= seq![(o1, b), (o2, c)]);
}

/// Evaluate an expression string.
///
/// The result is exactly what the scan model yields: the plan of a
/// successful left fold, or the first applicable error.  On success
/// every operand of the plan is a well-formed decimal token.
pub fn calc(expression: &str) -> (r: Result<Expr, CalcError>)
    ensures
        match r {
            Ok(e) => spec_calc(expression@) == Ok::<Plan, CalcError>(e@) && plan_wf(e@),
            Err(err) => spec_calc(expression@) == Err::<Plan, CalcError>(err),
        },
{
    let n = expression.unicode_len();
    let mut i: usize = 0;
    let mut start: Option<usize> = None;
    let mut seps: usize = 0;
    let mut m = Machine::new();

    while i < n
        invariant
            n == expression@.len(),
            i <= n,
            machine_wf(m),
            scan_from(scan_init(), expression@, i as int) == (Scan {
                cur: cur_of(expression@, start, i as int),
                ..machine_view(m)
            }),
            match start {
                None => seps == 0,
                Some(p) => {
                    let t = expression@.subrange(p as int, i as int);
                    &&& p < i
                    &&& is_digit(expression@[p as int])
                    &&& forall|k: int| 0 <= k < t.len() ==> is_operand_char(#[trigger] t[k])
                    &&& separators_in(t) == seps
                    &&& seps <= i
                },
            },
        decreases n - i,
    {
        let ghost st = scan_from(scan_init(), expression@, i as int);
        let c = expression.get_char(i);
        let d = c as u32;
        if 48 <= d && d <= 57 {
            match start {
                None => {
                    start = Some(i);
                    proof {
                        assert(seq![c] =~= expression@.subrange(i as int, i as int + 1));
                        assert(separators_in(seq![c]) == 0) by {
                            assert(separators_in(Seq::<char>::empty()) == 0);
                            assert(seq![c].drop_last() =~= Seq::<char>::empty());
                            assert(seq![c].last() == c);
                        };
                    }
                },
                Some(p) => {
                    proof {
                        let t = expression@.subrange(p as int, i as int);
                        assert(t.push(c) =~= expression@.subrange(p as int, i as int + 1));
                        assert(t.push(c).drop_last() =~= t);
                        assert(separators_in(t.push(c)) == separators_in(t));
                    }
                },
            }
        } else if c == '.' || c == ',' {
            match start {
                None => {},
                Some(p) => {
                    seps = seps + 1;
                    proof {
                        let t = expression@.subrange(p as int, i as int);
                        assert(t.push(c) =~= expression@.subrange(p as int, i as int + 1));
                        assert(t.push(c).drop_last() =~= t);
                        assert(separators_in(t.push(c)) == separators_in(t) + 1);
                    }
                },
            }
        } else {
            let opc = Operator::from(&c);
            if let Some(p) = start {
                let tok = expression.substring_char(p, i).to_owned();
                if seps >= 2 {
                    proof {
                        assert(!numeric_token(tok@));
                        assert(scan_from(scan_init(), expression@, i as int + 1).bad);
                        lemma_bad_monotone(expression@, i as int + 1, n as int);
                        lemma_bad_finish(expression@);
                    }
                    return Err(CalcError::MalformedNumber);
                }
                proof {
                    assert(numeric_token(tok@));
                    assert((Scan { cur: None, ..st }) == machine_view(m));
                }
                m.feed(tok);
                start = None;
                seps = 0;
            }
            if let Some(o) = opc {
                m.set_op(o);
            }
            proof {
                assert(scan_from(scan_init(), expression@, i as int + 1) == (Scan {
                    cur: cur_of(expression@, start, i as int + 1),
                    ..machine_view(m)
                }));
            }
        }
        i = i + 1;
    }

    let ghost st_end = scan_from(scan_init(), expression@, n as int);
    if let Some(p) = start {
        let tok = expression.substring_char(p, n).to_owned();
        if seps >= 2 {
            proof {
                assert(!numeric_token(tok@));
                assert(scan_flush(st_end).bad);
            }
            return Err(CalcError::MalformedNumber);
        }
        proof {
            assert(numeric_token(tok@));
            assert((Scan { cur: None, ..st_end }) == machine_view(m));
        }
        m.feed(tok);
    }
    proof {
        assert(scan_flush(st_end) == machine_view(m));
        assert(scan_flush(machine_view(m)) == machine_view(m));
    }
    m.finish()
}

} // verus!
