//! Emitted JavaScript does what the program says.

use vstd::prelude::*;

use crate::ir::{ArmNode, Bind, Node, Pat, QuestionMode};
use crate::js::run::{
    infix, infix_text, native, native1, native2, native3, native_one, native_three, native_two,
    run, run_all, run_stm, run_stms, written, written_list, written_stm, written_stms, Flow,
    Infix, Js, Native, Scope, Stm,
};
use crate::js::{binary_op, form, form_of, js, js_arm, js_arms, js_binds, js_ident, js_list};
use crate::meaning::{
    apply, bind_all, choose_arm, done, eval, eval_all, is_int, names_differ, of_floats, of_ints,
    of_one, of_three, of_two, quotient, take_arm, try_arm, word, wrapped, Choice, Env, Event,
    Model, Outcome, Runs, Value,
};
use crate::strings::{debug_text, decimal, decimal_int};
use crate::types::{BinaryOp, Ty};

verus! {

/// The identifiers that emitted code keeps for itself.
pub open spec fn is_reserved(ident: Seq<char>) -> bool {
    ident == "__m"@ || ident == "__err"@ || ident == "__e"@ || ident == "__o"@ || ident == "__rt"@
}

/// Whether the identifier of a new variable is that of no other one in scope.
pub open spec fn is_free(vis: Set<Seq<char>>, name: Seq<char>) -> bool {
    &&& !is_reserved(js_ident(name))
    &&& forall|y: Seq<char>| #[trigger]
        vis.contains(y) && y != name ==> js_ident(y) != js_ident(name)
}

/// How many arguments an intrinsic takes; none, where there is no such intrinsic.
pub open spec fn arity(name: Seq<char>) -> nat {
    if name == "f64_sqrt"@ || name == "string_length"@ || name == "char_code"@ || name == "char_from_code"@ || name == "string_from_char"@ || name == "bytes_length"@ || name == "bytes_from_string"@ || name == "bytes_as_string_unchecked"@ || name == "array_length"@ {
        1
    } else if name == "i32_add"@ || name == "i32_sub"@ || name == "i32_mul"@ || name == "i32_div_s"@ || name == "i32_rem_s"@ || name == "i32_and"@ || name == "i32_or"@ || name == "i32_xor"@ || name == "i32_shl"@ || name == "i32_shr_s"@ || name == "i32_shr_u"@ || name == "i32_eq"@ || name == "i32_lt_s"@ || name == "f64_add"@ || name == "f64_sub"@ || name == "f64_mul"@ || name == "f64_div"@ || name == "f64_eq"@ || name == "f64_lt"@ || name == "string_concat"@ || name == "string_eq"@ || name == "string_lt"@ || name == "string_char_at"@ || name == "bytes_get_unchecked"@ || name == "bytes_concat"@ || name == "bytes_eq"@ || name == "array_get_unchecked"@ || name == "array_push"@ {
        2
    } else if name == "string_slice"@ || name == "bytes_slice"@ {
        3
    } else {
        0
    }
}

/// The names in scope behind the bindings of a pattern.
pub open spec fn vis_with(vis: Set<Seq<char>>, binds: Seq<Option<Bind>>) -> Set<Seq<char>>
    decreases binds.len(),
{
    if binds.len() == 0 {
        vis
    } else {
        let before = vis_with(vis, binds.drop_last());
        match binds.last() {
            Some(b) => before.insert(b.name),
            None => before,
        }
    }
}

/// The identifiers in scope behind the bindings of a pattern.
pub open spec fn taken_with(taken: Set<Seq<char>>, binds: Seq<Option<Bind>>) -> Set<Seq<char>>
    decreases binds.len(),
{
    if binds.len() == 0 {
        taken
    } else {
        let before = taken_with(taken, binds.drop_last());
        match binds.last() {
            Some(b) => before.insert(js_ident(b.name)),
            None => before,
        }
    }
}

/// Whether the bindings of a pattern have identifiers of their own.
pub open spec fn all_free(vis: Set<Seq<char>>, binds: Seq<Option<Bind>>) -> bool
    decreases binds.len(),
{
    binds.len() == 0 || {
        &&& all_free(vis, binds.drop_last())
        &&& match binds.last() {
            Some(b) => is_free(vis_with(vis, binds.drop_last()), b.name),
            None => true,
        }
    }
}

/// Whether a function of the module goes by its own identifier.
pub open spec fn is_known(m: Model, g: spec_fn(Seq<char>) -> Value, taken: Set<Seq<char>>, name: Seq<char>) -> bool {
    &&& !taken.contains(js_ident(name))
    &&& !is_reserved(js_ident(name))
    &&& g(js_ident(name)) == (m.function)(name)
}

/// Whether the names of an expression can be told apart by their identifiers, no
/// variable is read where its own value is made, and intrinsics have their
/// arguments. `vis` holds the variables in scope, `taken` their identifiers.
pub open spec fn fits(m: Model, g: spec_fn(Seq<char>) -> Value, me: Seq<char>, vis: Set<Seq<char>>, taken: Set<Seq<char>>, e: Node) -> bool
    decreases e, 1nat,
{
    match e {
        Node::Var { name, .. } => vis.contains(name),
        Node::FunctionRef { name, .. } => is_known(m, g, taken, name),
        Node::Let { name, value, next, .. } => {
            let inner = taken.insert(js_ident(name));
            &&& is_free(vis, name)
            &&& fits(m, g, me, vis.remove(name), inner, *value)
            &&& fits(m, g, me, vis.insert(name), inner, *next)
        },
        Node::If { cond, then, els, .. } => fits(m, g, me, vis, taken, *cond) && fits(
            m,
            g,
            me,
            vis,
            taken,
            *then,
        ) && fits(m, g, me, vis, taken, *els),
        Node::Array { elems, .. } => fits_all(m, g, me, vis, taken, elems),
        Node::RecordValue { fields, .. } => fits_all(m, g, me, vis, taken, fields),
        Node::EnumValue { payload, .. } => fits_all(m, g, me, vis, taken, payload),
        Node::FieldAccess { target, .. } => fits(m, g, me, vis, taken, *target),
        Node::Call { callee, args, .. } => fits(m, g, me, vis, taken, *callee) && fits_all(
            m,
            g,
            me,
            vis,
            taken,
            args,
        ),
        Node::TailSelfCall { args, .. } => is_known(m, g, taken, me) && fits_all(
            m,
            g,
            me,
            vis,
            taken,
            args,
        ),
        Node::Platform { args, .. } => fits_all(m, g, me, vis, taken, args),
        Node::Intrinsic { name, args, .. } => args.len() == arity(name) && arity(name) > 0 && fits_all(
            m,
            g,
            me,
            vis,
            taken,
            args,
        ),
        Node::Binary { left, right, .. } => fits(m, g, me, vis, taken, *left) && fits(
            m,
            g,
            me,
            vis,
            taken,
            *right,
        ),
        Node::Concat { left, right } => fits(m, g, me, vis, taken, *left) && fits(
            m,
            g,
            me,
            vis,
            taken,
            *right,
        ),
        Node::CharFromCode(value) => fits(m, g, me, vis, taken, *value),
        Node::StringFromChar(value) => fits(m, g, me, vis, taken, *value),
        Node::Match { scrutinee, arms, .. } => fits(m, g, me, vis, taken, *scrutinee) && fits_arms(
            m,
            g,
            me,
            vis,
            taken,
            arms,
        ),
        Node::Throw { value } => fits(m, g, me, vis, taken, *value),
        Node::Try { body, arms, .. } => fits(m, g, me, vis, taken, *body) && fits_arms(
            m,
            g,
            me,
            vis,
            taken,
            arms,
        ),
        Node::Question { value, .. } => fits(m, g, me, vis, taken, *value),
        Node::Panic { message } => fits(m, g, me, vis, taken, *message),
        Node::Retain { value } => fits(m, g, me, vis, taken, *value),
        Node::Release { next, .. } => fits(m, g, me, vis, taken, *next),
        Node::Fn { .. } => false,
        _ => true,
    }
}

/// [`fits`], of every expression of a list.
pub open spec fn fits_all(m: Model, g: spec_fn(Seq<char>) -> Value, me: Seq<char>, vis: Set<Seq<char>>, taken: Set<Seq<char>>, s: Seq<Node>) -> bool
    decreases s, 0nat,
{
    s.len() == 0 || (fits_all(m, g, me, vis, taken, s.drop_last()) && fits(
        m,
        g,
        me,
        vis,
        taken,
        s.last(),
    ))
}

/// [`fits`], of every arm of a list.
pub open spec fn fits_arms(m: Model, g: spec_fn(Seq<char>) -> Value, me: Seq<char>, vis: Set<Seq<char>>, taken: Set<Seq<char>>, s: Seq<ArmNode>) -> bool
    decreases s, 0nat,
{
    s.len() == 0 || (fits_arms(m, g, me, vis, taken, s.drop_last()) && fits_arm(
        m,
        g,
        me,
        vis,
        taken,
        s.last(),
    ))
}

/// What a pattern binds: the fields of a variant, or the whole value.
pub open spec fn bound_by(p: Pat) -> Seq<Option<Bind>> {
    match p {
        Pat::Variant { bindings, .. } => bindings,
        Pat::Wildcard { binding } => seq![binding],
    }
}

/// [`fits`], of an arm.
pub open spec fn fits_arm(m: Model, g: spec_fn(Seq<char>) -> Value, me: Seq<char>, vis: Set<Seq<char>>, taken: Set<Seq<char>>, arm: ArmNode) -> bool
    decreases arm, 0nat,
{
    let inner = vis_with(vis, bound_by(arm.pattern));
    let all = taken_with(taken, bound_by(arm.pattern));
    &&& all_free(vis, bound_by(arm.pattern))
    &&& match arm.guard {
        Some(guard) => fits(m, g, me, inner, all, *guard),
        None => true,
    }
    &&& fits(m, g, me, inner, all, *arm.body)
}

/// Whether JavaScript's variables hold what the program's variables do.
pub open spec fn agree(vis: Set<Seq<char>>, taken: Set<Seq<char>>, env: Env, sc: Scope) -> bool {
    &&& forall|x: Seq<char>| #[trigger]
        vis.contains(x) ==> !is_reserved(js_ident(x)) && (env.dom().contains(x)
            ==> sc.dom().contains(js_ident(x)) && sc[js_ident(x)] == Some(env[x]))
    &&& forall|i: Seq<char>| #[trigger] sc.dom().contains(i) ==> taken.contains(i) || is_reserved(i)
}

/// The infix operator of an intrinsic.
spec fn infix_of(name: Seq<char>) -> Option<Infix> {
    if name == "i32_add"@ || name == "f64_add"@ || name == "string_concat"@ {
        Some(Infix::Plus)
    } else if name == "i32_sub"@ || name == "f64_sub"@ {
        Some(Infix::Minus)
    } else if name == "i32_mul"@ || name == "f64_mul"@ {
        Some(Infix::Times)
    } else if name == "i32_rem_s"@ {
        Some(Infix::Modulo)
    } else if name == "f64_div"@ {
        Some(Infix::Over)
    } else if name == "i32_and"@ {
        Some(Infix::And)
    } else if name == "i32_or"@ {
        Some(Infix::Or)
    } else if name == "i32_xor"@ {
        Some(Infix::Xor)
    } else if name == "i32_shl"@ {
        Some(Infix::Left)
    } else if name == "i32_shr_s"@ {
        Some(Infix::Right)
    } else if name == "i32_eq"@ || name == "f64_eq"@ || name == "string_eq"@ {
        Some(Infix::Same)
    } else if name == "i32_lt_s"@ || name == "f64_lt"@ || name == "string_lt"@ {
        Some(Infix::Less)
    } else {
        None
    }
}

/// The operator of an intrinsic whose result is made an integer.
spec fn whole_of(name: Seq<char>) -> Option<Infix> {
    if name == "i32_div_s"@ {
        Some(Infix::Over)
    } else if name == "i32_shr_u"@ {
        Some(Infix::RightUnsigned)
    } else {
        None
    }
}

/// The expression of JavaScript's library that an intrinsic is.
spec fn native_of(name: Seq<char>) -> Option<Native> {
    if name == "f64_sqrt"@ {
        Some(Native::Root)
    } else if name == "string_length"@ {
        Some(Native::CountPoints)
    } else if name == "string_char_at"@ {
        Some(Native::PointAt)
    } else if name == "string_slice"@ {
        Some(Native::SliceText)
    } else if name == "char_code"@ || name == "char_from_code"@ {
        Some(Native::Parens)
    } else if name == "string_from_char"@ {
        Some(Native::FromPoint)
    } else if name == "bytes_length"@ || name == "array_length"@ {
        Some(Native::Length)
    } else if name == "bytes_get_unchecked"@ || name == "array_get_unchecked"@ {
        Some(Native::Index)
    } else if name == "bytes_slice"@ {
        Some(Native::SliceBytes)
    } else if name == "bytes_concat"@ {
        Some(Native::JoinBytes)
    } else if name == "bytes_eq"@ {
        Some(Native::SameBytes)
    } else if name == "bytes_from_string"@ {
        Some(Native::Encode)
    } else if name == "bytes_as_string_unchecked"@ {
        Some(Native::Decode)
    } else if name == "array_push"@ {
        Some(Native::Push)
    } else {
        None
    }
}

/// The infix operator of a binary operator.
spec fn operator(op: BinaryOp) -> Infix {
    match op {
        BinaryOp::Add => Infix::Plus,
        BinaryOp::Sub => Infix::Minus,
        BinaryOp::Mul => Infix::Times,
        BinaryOp::Div => Infix::Over,
        BinaryOp::Rem => Infix::Modulo,
        BinaryOp::Concat => Infix::Plus,
        BinaryOp::Eq => Infix::Same,
        BinaryOp::Lt => Infix::Less,
        BinaryOp::Ne => Infix::NotSame,
        BinaryOp::Gt => Infix::Greater,
        BinaryOp::Le => Infix::LessOrSame,
        BinaryOp::Ge => Infix::GreaterOrSame,
        BinaryOp::Shl => Infix::Left,
        BinaryOp::Shr => Infix::Right,
        BinaryOp::UShr => Infix::RightUnsigned,
    }
}

/// The expression that a node is emitted as.
spec fn js_of(me: Seq<char>, e: Node) -> Js
    decreases e, 1nat,
{
    match e {
        Node::Int(n) => Js::Number(n as int),
        Node::Float(text) => Js::Float(text),
        Node::Bool(b) => Js::Bool(b),
        Node::String(s) => Js::Text(s),
        Node::Char(c) => Js::Number(c as int),
        Node::Unit => Js::Undefined,
        Node::Var { name, .. } => Js::Ident(js_ident(name)),
        Node::FunctionRef { name, .. } => Js::Ident(js_ident(name)),
        Node::Let { name, value, next, .. } => Js::Block(
            seq![Stm::Const(js_ident(name), js_of(me, *value))] + seq![
                Stm::Return(js_of(me, *next)),
            ],
        ),
        Node::If { cond, then, els, .. } => Js::Cond(
            Box::new(js_of(me, *cond)),
            Box::new(js_of(me, *then)),
            Box::new(js_of(me, *els)),
        ),
        Node::Array { elems, .. } => Js::List(list_of(me, elems)),
        Node::RecordValue { fields, .. } => Js::Object(None, list_of(me, fields)),
        Node::EnumValue { tag, payload, .. } => Js::Object(
            Some(tag as nat),
            list_of(me, payload),
        ),
        Node::FieldAccess { target, index, .. } => Js::Field(
            Box::new(js_of(me, *target)),
            index as nat,
        ),
        Node::Call { callee, args, .. } => Js::Call(
            Box::new(js_of(me, *callee)),
            list_of(me, args),
        ),
        Node::TailSelfCall { args, .. } => Js::Call(
            Box::new(Js::Ident(js_ident(me))),
            list_of(me, args),
        ),
        Node::Platform { name, args, .. } => Js::Host(name, list_of(me, args)),
        Node::Intrinsic { name, args, .. } => match whole_of(name) {
            Some(op) => if args.len() == 2 {
                Js::Infix(
                    Infix::Or,
                    Box::new(
                        Js::Infix(
                            op,
                            Box::new(js_of(me, args[0])),
                            Box::new(js_of(me, args[1])),
                        ),
                    ),
                    Box::new(Js::Number(0)),
                )
            } else {
                Js::Undefined
            },
            None => match infix_of(name) {
                Some(op) => if args.len() == 2 {
                    Js::Infix(op, Box::new(js_of(me, args[0])), Box::new(js_of(me, args[1])))
                } else {
                    Js::Undefined
                },
                None => match native_of(name) {
                    Some(f) => Js::Native(f, list_of(me, args)),
                    None => Js::Undefined,
                },
            },
        },
        Node::Binary { op, ty, left, right } => if op == BinaryOp::Div && ty == Ty::Int {
            Js::Infix(
                Infix::Or,
                Box::new(
                    Js::Infix(
                        Infix::Over,
                        Box::new(js_of(me, *left)),
                        Box::new(js_of(me, *right)),
                    ),
                ),
                Box::new(Js::Number(0)),
            )
        } else {
            Js::Infix(
                operator(op),
                Box::new(js_of(me, *left)),
                Box::new(js_of(me, *right)),
            )
        },
        Node::Concat { left, right } => Js::Infix(
            Infix::Plus,
            Box::new(js_of(me, *left)),
            Box::new(js_of(me, *right)),
        ),
        Node::CharFromCode(value) => js_of(me, *value),
        Node::StringFromChar(value) => Js::Native(Native::FromPoint, seq![js_of(me, *value)]),
        Node::Match { scrutinee, arms, .. } => Js::Block(
            (seq![Stm::Const("__m"@, js_of(me, *scrutinee))] + arms_of(me, "__m"@, arms)) + seq![
                Stm::ThrowUnmatched,
            ],
        ),
        Node::Throw { value } => Js::Block(seq![Stm::ThrowError(js_of(me, *value))]),
        Node::Try { body, arms, .. } => Js::Block(
            seq![Stm::Catch(js_of(me, *body), arms_of(me, "__err"@, arms))],
        ),
        Node::Question { value, mode, .. } => match mode {
            QuestionMode::Throws => js_of(me, *value),
            QuestionMode::Option => Js::Block(
                (seq![Stm::Const("__o"@, js_of(me, *value))] + seq![Stm::ThrowNoneIf("__o"@, 1)])
                    + seq![Stm::Return(Js::Field(Box::new(Js::Ident("__o"@)), 0))],
            ),
        },
        Node::Panic { message } => Js::Block(seq![Stm::ThrowPanic(js_of(me, *message))]),
        Node::Retain { value } => js_of(me, *value),
        Node::Release { next, .. } => js_of(me, *next),
        Node::Fn { .. } => Js::Undefined,
    }
}

/// The expressions that nodes are emitted as.
spec fn list_of(me: Seq<char>, s: Seq<Node>) -> Seq<Js>
    decreases s, 0nat,
{
    if s.len() == 0 {
        Seq::empty()
    } else {
        list_of(me, s.drop_last()).push(js_of(me, s.last()))
    }
}

/// The statements that bind the fields of a variant.
spec fn binds_of(subject: Seq<char>, binds: Seq<Option<Bind>>) -> Seq<Stm>
    decreases binds.len(),
{
    if binds.len() == 0 {
        Seq::empty()
    } else {
        let before = binds_of(subject, binds.drop_last());
        match binds.last() {
            Some(b) => before + seq![
                Stm::Const(
                    js_ident(b.name),
                    Js::Field(Box::new(Js::Ident(subject)), (binds.len() - 1) as nat),
                ),
            ],
            None => before,
        }
    }
}

/// The end of an arm.
spec fn tail_of(me: Seq<char>, arm: ArmNode) -> Stm
    decreases arm, 0nat,
{
    match arm.guard {
        Some(guard) => Stm::ReturnIf(js_of(me, *guard), js_of(me, *arm.body)),
        None => Stm::Return(js_of(me, *arm.body)),
    }
}

/// The statement that an arm is emitted as.
spec fn arm_of(me: Seq<char>, subject: Seq<char>, arm: ArmNode) -> Stm
    decreases arm, 1nat,
{
    match arm.pattern {
        Pat::Variant { tag, bindings, .. } => Stm::IfTag(
            subject,
            tag as nat,
            binds_of(subject, bindings) + seq![tail_of(me, arm)],
        ),
        Pat::Wildcard { binding } => match binding {
            Some(b) => Stm::Braces(
                seq![Stm::Const(js_ident(b.name), Js::Ident(subject))] + seq![tail_of(me, arm)],
            ),
            None => Stm::Braces(seq![tail_of(me, arm)]),
        },
    }
}

/// The statements that arms are emitted as.
spec fn arms_of(me: Seq<char>, subject: Seq<char>, s: Seq<ArmNode>) -> Seq<Stm>
    decreases s, 0nat,
{
    if s.len() == 0 {
        Seq::empty()
    } else {
        arms_of(me, subject, s.drop_last()) + seq![arm_of(me, subject, s.last())]
    }
}

proof fn lemma_written_append(a: Seq<Stm>, s: Stm)
    ensures
        written_stms(a + seq![s]) == written_stms(a) + written_stm(s),
{
    assert((a + seq![s]).drop_last() =~= a);
    assert((a + seq![s]).last() == s);
}

proof fn lemma_written_one(s: Stm)
    ensures
        written_stms(seq![s]) == written_stm(s),
{
    assert(seq![s].drop_last() =~= Seq::<Stm>::empty());
    assert(written_stms(Seq::<Stm>::empty()) =~= Seq::<char>::empty());
    assert(written_stms(seq![s]) =~= written_stm(s));
}

proof fn lemma_written_join(a: Seq<Stm>, b: Seq<Stm>)
    ensures
        written_stms(a + b) == written_stms(a) + written_stms(b),
    decreases b.len(),
{
    if b.len() == 0 {
        assert(a + b =~= a);
        assert(written_stms(a + b) =~= written_stms(a) + written_stms(b));
    } else {
        lemma_written_join(a, b.drop_last());
        assert((a + b).drop_last() =~= a + b.drop_last());
        assert((a + b).last() == b.last());
        assert(written_stms(a + b) =~= written_stms(a) + written_stms(b));
    }
}

proof fn lemma_run_one(m: Model, g: spec_fn(Seq<char>) -> Value, sc: Scope, s: Stm, t: Seq<Event>)
    ensures
        run_stms(m, g, sc, seq![s], t) == run_stm(m, g, sc, s, t),
{
    assert(seq![s].drop_last() =~= Seq::<Stm>::empty());
    assert(run_stms(m, g, sc, Seq::<Stm>::empty(), t) == Flow::On(sc, t));
}

proof fn lemma_run_join(m: Model, g: spec_fn(Seq<char>) -> Value, sc: Scope, a: Seq<Stm>, b: Seq<Stm>, t: Seq<Event>)
    ensures
        run_stms(m, g, sc, a + b, t) == (match run_stms(m, g, sc, a, t) {
            Flow::On(inner, after) => run_stms(m, g, inner, b, after),
            Flow::Off(r) => Flow::Off(r),
        }),
    decreases b.len(),
{
    if b.len() == 0 {
        assert(a + b =~= a);
    } else {
        lemma_run_join(m, g, sc, a, b.drop_last(), t);
        assert((a + b).drop_last() =~= a + b.drop_last());
        assert((a + b).last() == b.last());
    }
}

proof fn lemma_list_of(me: Seq<char>, s: Seq<Node>)
    ensures
        list_of(me, s).len() == s.len(),
        forall|i: int| 0 <= i < s.len() ==> #[trigger] list_of(me, s)[i] == js_of(me, s[i]),
    decreases s.len(),
{
    if s.len() > 0 {
        lemma_list_of(me, s.drop_last());
    }
}

proof fn lemma_fits_at(m: Model, g: spec_fn(Seq<char>) -> Value, me: Seq<char>, vis: Set<Seq<char>>, taken: Set<Seq<char>>, s: Seq<Node>, i: int)
    requires
        fits_all(m, g, me, vis, taken, s),
        0 <= i < s.len(),
    ensures
        fits(m, g, me, vis, taken, s[i]),
    decreases s.len(),
{
    if i < s.len() - 1 {
        lemma_fits_at(m, g, me, vis, taken, s.drop_last(), i);
    }
}

/// Literals that are written in parts.
proof fn lemma_literals()
    ensures
        "(() => { const "@ == "(() => { "@ + "const "@,
        "; return "@ == "; "@ + "return "@,
        "; })()"@ == "; "@ + "})()"@,
        "; } "@ == "; "@ + "} "@,
        "); })()"@ == "); "@ + "})()"@,
        "(() => { throw new EmelaError("@ == "(() => { "@ + "throw new EmelaError("@,
        "(() => { throw new EmelaPanic("@ == "(() => { "@ + "throw new EmelaPanic("@,
        "(() => { const __m = "@ == "(() => { "@ + "const "@ + "__m"@ + " = "@,
        "(() => { const __o = "@ == "(() => { "@ + "const "@ + "__o"@ + " = "@,
        "throw new Error(\"non-exhaustive match\"); })()"@ == "throw new Error(\"non-exhaustive match\"); "@ + "})()"@,
        "(() => { try { return "@ == "(() => { "@ + "try { return "@,
        "throw __e; } })()"@ == "throw __e; } "@ + "})()"@,
        ") return "@ == ") "@ + "return "@,
        "(("@ == "("@ + "("@,
        ") | 0)"@ == ")"@ + " | "@ + "0"@ + ")"@,
        "; if (__o.tag === 1) throw new EmelaNone(); return __o.values[0]; })()"@ == "; "@ + "if ("@ + "__o"@ + ".tag === "@ + "1"@ + ") throw new EmelaNone(); "@ + "return "@ + "__o"@ + ".values["@ + "0"@ + "]"@ + "; "@ + "})()"@,
        decimal(0) == "0"@,
        decimal(1) == "1"@,
        ""@ == Seq::<char>::empty(),
{
    reveal_strlit("(() => { const ");
    reveal_strlit("(() => { ");
    reveal_strlit("const ");
    reveal_strlit("; return ");
    reveal_strlit("; ");
    reveal_strlit("return ");
    reveal_strlit("; })()");
    reveal_strlit("})()");
    reveal_strlit("; } ");
    reveal_strlit("} ");
    reveal_strlit("); })()");
    reveal_strlit("); ");
    reveal_strlit("(() => { throw new EmelaError(");
    reveal_strlit("throw new EmelaError(");
    reveal_strlit("(() => { throw new EmelaPanic(");
    reveal_strlit("throw new EmelaPanic(");
    reveal_strlit("(() => { const __m = ");
    reveal_strlit("__m");
    reveal_strlit(" = ");
    reveal_strlit("(() => { const __o = ");
    reveal_strlit("__o");
    reveal_strlit("throw new Error(\"non-exhaustive match\"); })()");
    reveal_strlit("throw new Error(\"non-exhaustive match\"); ");
    reveal_strlit("(() => { try { return ");
    reveal_strlit("try { return ");
    reveal_strlit("throw __e; } })()");
    reveal_strlit("throw __e; } ");
    reveal_strlit(") return ");
    reveal_strlit(") ");
    reveal_strlit("((");
    reveal_strlit("(");
    reveal_strlit(") | 0)");
    reveal_strlit(")");
    reveal_strlit(" | ");
    reveal_strlit("0");
    reveal_strlit("; if (__o.tag === 1) throw new EmelaNone(); return __o.values[0]; })()");
    reveal_strlit("if (");
    reveal_strlit(".tag === ");
    reveal_strlit("1");
    reveal_strlit(") throw new EmelaNone(); ");
    reveal_strlit(".values[");
    reveal_strlit("]");
    reveal_strlit("");
    assert("(() => { const "@ =~= "(() => { "@ + "const "@);
    assert("; return "@ =~= "; "@ + "return "@);
    assert("; })()"@ =~= "; "@ + "})()"@);
    assert("; } "@ =~= "; "@ + "} "@);
    assert("); })()"@ =~= "); "@ + "})()"@);
    assert("(() => { throw new EmelaError("@ =~= "(() => { "@ + "throw new EmelaError("@);
    assert("(() => { throw new EmelaPanic("@ =~= "(() => { "@ + "throw new EmelaPanic("@);
    assert("(() => { const __m = "@ =~= "(() => { "@ + "const "@ + "__m"@ + " = "@);
    assert("(() => { const __o = "@ =~= "(() => { "@ + "const "@ + "__o"@ + " = "@);
    assert("throw new Error(\"non-exhaustive match\"); })()"@ =~= "throw new Error(\"non-exhaustive match\"); "@ + "})()"@);
    assert("(() => { try { return "@ =~= "(() => { "@ + "try { return "@);
    assert("throw __e; } })()"@ =~= "throw __e; } "@ + "})()"@);
    assert(") return "@ =~= ") "@ + "return "@);
    assert("(("@ =~= "("@ + "("@);
    assert(") | 0)"@ =~= ")"@ + " | "@ + "0"@ + ")"@);
    assert("; if (__o.tag === 1) throw new EmelaNone(); return __o.values[0]; })()"@ =~= "; "@ + "if ("@ + "__o"@ + ".tag === "@ + "1"@ + ") throw new EmelaNone(); "@ + "return "@ + "__o"@ + ".values["@ + "0"@ + "]"@ + "; "@ + "})()"@);
    assert(decimal(0) =~= "0"@);
    assert(decimal(1) =~= "1"@);
    assert(""@ =~= Seq::<char>::empty());
}

/// The form of an intrinsic of two arguments.
proof fn lemma_form_two(name: Seq<char>)
    requires
        arity(name) == 2,
    ensures
        match whole_of(name) {
            Some(op) => form_of(name) == Some(form("(("@, infix_text(op), ""@, ") | 0)"@)),
            None => match infix_of(name) {
                Some(op) => form_of(name) == Some(form("("@, infix_text(op), ""@, ")"@)),
                None => match native_of(name) {
                    Some(Native::PointAt) => form_of(name) == Some(
                        form("Array.from("@, ")["@, ""@, "].codePointAt(0)"@),
                    ),
                    Some(Native::JoinBytes) => form_of(name) == Some(
                        form("Uint8Array.from([..."@, ", ..."@, ""@, "])"@),
                    ),
                    Some(Native::SameBytes) => form_of(name) == Some(
                        form("(Buffer.compare("@, ", "@, ""@, ") === 0)"@),
                    ),
                    Some(Native::Push) => form_of(name) == Some(form("[..."@, ", "@, ""@, "]"@)),
                    Some(Native::Index) => form_of(name) == Some(form("("@, ")["@, ""@, "]"@)),
                    Some(_) => false,
                    None => false,
                },
            },
        },
{
    names_differ();
}

/// How an intrinsic of two arguments is emitted.
proof fn lemma_text_two(out: Seq<char>, name: Seq<char>, a: Seq<char>, b: Seq<char>)
    requires
        arity(name) == 2,
        form_of(name) is Some,
    ensures
        ({
            let f = form_of(name)->Some_0;
            let text = out + f.open + a + f.first + b + f.second + f.close;
            match whole_of(name) {
                Some(op) => text == out + ("("@ + ("("@ + a + infix_text(op) + b + ")"@) + " | "@
                    + decimal_int(0) + ")"@),
                None => match infix_of(name) {
                    Some(op) => text == out + ("("@ + a + infix_text(op) + b + ")"@),
                    None => match native_of(name) {
                        Some(f) => text == out + native_two(f, a, b),
                        None => false,
                    },
                },
            }
        }),
{
    lemma_form_two(name);
    lemma_literals();
    let f = form_of(name)->Some_0;
    let text = out + f.open + a + f.first + b + f.second + f.close;
    match whole_of(name) {
        Some(op) => {
            assert(text =~= out + ("("@ + ("("@ + a + infix_text(op) + b + ")"@) + " | "@
                + decimal_int(0) + ")"@));
        },
        None => match infix_of(name) {
            Some(op) => {
                assert(text =~= out + ("("@ + a + infix_text(op) + b + ")"@));
            },
            None => match native_of(name) {
                Some(f) => {
                    assert(text =~= out + native_two(f, a, b));
                },
                None => {},
            },
        },
    }
}

/// How an intrinsic of one argument is emitted.
proof fn lemma_text_one(out: Seq<char>, name: Seq<char>, a: Seq<char>)
    requires
        arity(name) == 1,
    ensures
        whole_of(name) is None,
        infix_of(name) is None,
        match (form_of(name), native_of(name)) {
            (Some(f), Some(n)) => out + f.open + a + f.first + f.second + f.close == out
                + native_one(n, a),
            _ => false,
        },
{
    names_differ();
    lemma_literals();
    if let (Some(f), Some(n)) = (form_of(name), native_of(name)) {
        assert(out + f.open + a + f.first + f.second + f.close =~= out + native_one(n, a));
    }
}

/// How an intrinsic of three arguments is emitted.
proof fn lemma_text_three(out: Seq<char>, name: Seq<char>, a: Seq<char>, b: Seq<char>, c: Seq<char>)
    requires
        arity(name) == 3,
    ensures
        whole_of(name) is None,
        infix_of(name) is None,
        match (form_of(name), native_of(name)) {
            (Some(f), Some(n)) => out + f.open + a + f.first + b + f.second + c + f.close == out
                + native_three(n, a, b, c),
            _ => false,
        },
{
    names_differ();
    lemma_literals();
    if let (Some(f), Some(n)) = (form_of(name), native_of(name)) {
        assert(out + f.open + a + f.first + b + f.second + c + f.close =~= out + native_three(
            n,
            a,
            b,
            c,
        ));
    }
}

/// What is emitted is the expression, written.
proof fn lemma_text(m: Model, g: spec_fn(Seq<char>) -> Value, out: Seq<char>, me: Seq<char>, vis: Set<Seq<char>>, taken: Set<Seq<char>>, e: Node)
    requires
        fits(m, g, me, vis, taken, e),
    ensures
        js(out, me, e) == out + written(js_of(me, e)),
    decreases e, 1nat,
{
    lemma_literals();
    let x = js_of(me, e);
    match e {
        Node::Int(_) | Node::Float(_) | Node::Bool(_) | Node::String(_) | Node::Char(_)
        | Node::Unit | Node::Var { .. } | Node::FunctionRef { .. } | Node::Fn { .. } => {},
        Node::Let { .. } => {
            lemma_text_let(m, g, out, me, vis, taken, e);
        },
        Node::If { .. } => {
            lemma_text_if(m, g, out, me, vis, taken, e);
        },
        Node::Array { elems, .. } => {
            let a = out + "["@;
            lemma_text_list(m, g, a, me, vis, taken, elems);
            assert(js(out, me, e) =~= out + written(x));
        },
        Node::RecordValue { fields, .. } => {
            let a = out + "{ values: ["@;
            lemma_text_list(m, g, a, me, vis, taken, fields);
            assert(js(out, me, e) =~= out + written(x));
        },
        Node::EnumValue { tag, payload, .. } => {
            let a = out + "{ tag: "@ + decimal(tag as nat) + ", values: ["@;
            lemma_text_list(m, g, a, me, vis, taken, payload);
            assert(js(out, me, e) =~= out + written(x));
        },
        Node::TailSelfCall { args, .. } => {
            let a = out + js_ident(me) + "("@;
            assert(written(Js::Ident(js_ident(me))) == js_ident(me));
            lemma_text_list(m, g, a, me, vis, taken, args);
            assert(js(out, me, e) =~= out + written(x));
        },
        Node::Platform { name, args, .. } => {
            let a = out + "__rt["@ + debug_text(name) + "]("@;
            lemma_text_list(m, g, a, me, vis, taken, args);
            assert(js(out, me, e) =~= out + written(x));
        },
        Node::FieldAccess { target, .. } => {
            lemma_text(m, g, out, me, vis, taken, *target);
            assert(js(out, me, e) =~= out + written(x));
        },
        Node::Call { callee, args, .. } => {
            lemma_text(m, g, out, me, vis, taken, *callee);
            lemma_text_list(m, g, js(out, me, *callee) + "("@, me, vis, taken, args);
            assert(js(out, me, e) =~= out + written(x));
        },
        Node::Intrinsic { .. } => {
            lemma_text_intrinsic(m, g, out, me, vis, taken, e);
        },
        Node::Binary { .. } => {
            lemma_text_binary(m, g, out, me, vis, taken, e);
        },
        Node::Concat { left, right } => {
            let a = out + "("@;
            lemma_text(m, g, a, me, vis, taken, *left);
            let b = js(a, me, *left) + " + "@;
            lemma_text(m, g, b, me, vis, taken, *right);
            assert(js(out, me, e) =~= out + written(x));
        },
        Node::CharFromCode(value) => {
            lemma_text(m, g, out, me, vis, taken, *value);
        },
        Node::StringFromChar(value) => {
            lemma_text(m, g, out + "String.fromCodePoint("@, me, vis, taken, *value);
            assert(js(out, me, e) =~= out + written(x));
        },
        Node::Match { .. } => {
            lemma_text_match(m, g, out, me, vis, taken, e);
        },
        Node::Throw { value } => {
            lemma_text(m, g, out + "(() => { throw new EmelaError("@, me, vis, taken, *value);
            lemma_written_one(Stm::ThrowError(js_of(me, *value)));
            assert(js(out, me, e) =~= out + written(x));
        },
        Node::Try { .. } => {
            lemma_text_try(m, g, out, me, vis, taken, e);
        },
        Node::Question { .. } => {
            lemma_text_question(m, g, out, me, vis, taken, e);
        },
        Node::Panic { message } => {
            lemma_text(m, g, out + "(() => { throw new EmelaPanic("@, me, vis, taken, *message);
            lemma_written_one(Stm::ThrowPanic(js_of(me, *message)));
            assert(js(out, me, e) =~= out + written(x));
        },
        Node::Retain { value } => {
            lemma_text(m, g, out, me, vis, taken, *value);
        },
        Node::Release { next, .. } => {
            lemma_text(m, g, out, me, vis, taken, *next);
        },
    }
}

proof fn lemma_text_let(m: Model, g: spec_fn(Seq<char>) -> Value, out: Seq<char>, me: Seq<char>, vis: Set<Seq<char>>, taken: Set<Seq<char>>, e: Node)
    requires
        fits(m, g, me, vis, taken, e),
        e is Let,
    ensures
        js(out, me, e) == out + written(js_of(me, e)),
    decreases e, 0nat,
{
    lemma_literals();
    let x = js_of(me, e);
    match e {
        Node::Let { name, value, next, .. } => {
            let inner = taken.insert(js_ident(name));
            let head = out + "(() => { const "@ + js_ident(name) + " = "@;
            lemma_text(m, g, head, me, vis.remove(name), inner, *value);
            let mid = js(head, me, *value) + "; return "@;
            lemma_text(m, g, mid, me, vis.insert(name), inner, *next);
            let first = Stm::Const(js_ident(name), js_of(me, *value));
            let second = Stm::Return(js_of(me, *next));
            lemma_written_one(first);
            lemma_written_append(seq![first], second);
            assert(js(out, me, e) =~= out + written(x));
        },
        _ => {},
    }
}

proof fn lemma_text_if(m: Model, g: spec_fn(Seq<char>) -> Value, out: Seq<char>, me: Seq<char>, vis: Set<Seq<char>>, taken: Set<Seq<char>>, e: Node)
    requires
        fits(m, g, me, vis, taken, e),
        e is If,
    ensures
        js(out, me, e) == out + written(js_of(me, e)),
    decreases e, 0nat,
{
    lemma_literals();
    let x = js_of(me, e);
    match e {
        Node::If { cond, then, els, .. } => {
            let a = out + "("@;
            lemma_text(m, g, a, me, vis, taken, *cond);
            let b = js(a, me, *cond) + " ? ("@;
            lemma_text(m, g, b, me, vis, taken, *then);
            let c = js(b, me, *then) + ") : ("@;
            lemma_text(m, g, c, me, vis, taken, *els);
            assert(js(out, me, e) =~= out + written(x));
        },
        _ => {},
    }
}

proof fn lemma_text_binary(m: Model, g: spec_fn(Seq<char>) -> Value, out: Seq<char>, me: Seq<char>, vis: Set<Seq<char>>, taken: Set<Seq<char>>, e: Node)
    requires
        fits(m, g, me, vis, taken, e),
        e is Binary,
    ensures
        js(out, me, e) == out + written(js_of(me, e)),
    decreases e, 0nat,
{
    lemma_literals();
    let x = js_of(me, e);
    match e {
        Node::Binary { op, ty, left, right } => {
            if op == BinaryOp::Div && ty == Ty::Int {
                let a = out + "(("@;
                lemma_text(m, g, a, me, vis, taken, *left);
                let b = js(a, me, *left) + " / "@;
                lemma_text(m, g, b, me, vis, taken, *right);
                let inner = Js::Infix(
                    Infix::Over,
                    Box::new(js_of(me, *left)),
                    Box::new(js_of(me, *right)),
                );
                assert(written(inner) == "("@ + written(js_of(me, *left)) + " / "@ + written(
                    js_of(me, *right),
                ) + ")"@);
                assert(written(Js::Number(0)) == "0"@);
                assert(js(out, me, e) =~= out + written(x));
            } else {
                let a = out + "("@;
                lemma_text(m, g, a, me, vis, taken, *left);
                let b = js(a, me, *left) + binary_op(op);
                lemma_text(m, g, b, me, vis, taken, *right);
                assert(infix_text(operator(op)) == binary_op(op));
                assert(js(out, me, e) =~= out + written(x));
            }
        },
        _ => {},
    }
}

proof fn lemma_text_match(m: Model, g: spec_fn(Seq<char>) -> Value, out: Seq<char>, me: Seq<char>, vis: Set<Seq<char>>, taken: Set<Seq<char>>, e: Node)
    requires
        fits(m, g, me, vis, taken, e),
        e is Match,
    ensures
        js(out, me, e) == out + written(js_of(me, e)),
    decreases e, 0nat,
{
    lemma_literals();
    let x = js_of(me, e);
    match e {
        Node::Match { scrutinee, arms, .. } => {
            let head = out + "(() => { const __m = "@;
            lemma_text(m, g, head, me, vis, taken, *scrutinee);
            let mid = js(head, me, *scrutinee) + "; "@;
            lemma_text_arms(m, g, mid, me, vis, taken, "__m"@, arms);
            let first = Stm::Const("__m"@, js_of(me, *scrutinee));
            let s = arms_of(me, "__m"@, arms);
            lemma_written_one(first);
            lemma_written_join(seq![first], s);
            lemma_written_append(seq![first] + s, Stm::ThrowUnmatched);
            assert(js(out, me, e) =~= out + written(x));
        },
        _ => {},
    }
}

proof fn lemma_text_try(m: Model, g: spec_fn(Seq<char>) -> Value, out: Seq<char>, me: Seq<char>, vis: Set<Seq<char>>, taken: Set<Seq<char>>, e: Node)
    requires
        fits(m, g, me, vis, taken, e),
        e is Try,
    ensures
        js(out, me, e) == out + written(js_of(me, e)),
    decreases e, 0nat,
{
    lemma_literals();
    let x = js_of(me, e);
    match e {
        Node::Try { body, arms, .. } => {
            let head = out + "(() => { try { return "@;
            lemma_text(m, g, head, me, vis, taken, *body);
            let mid = js(head, me, *body)
                + "; } catch (__e) { if (!(__e instanceof EmelaError)) throw __e; const __err = __e.value; "@;
            lemma_text_arms(m, g, mid, me, vis, taken, "__err"@, arms);
            lemma_written_one(Stm::Catch(js_of(me, *body), arms_of(me, "__err"@, arms)));
            assert(js(out, me, e) =~= out + written(x));
        },
        _ => {},
    }
}

proof fn lemma_text_question(m: Model, g: spec_fn(Seq<char>) -> Value, out: Seq<char>, me: Seq<char>, vis: Set<Seq<char>>, taken: Set<Seq<char>>, e: Node)
    requires
        fits(m, g, me, vis, taken, e),
        e is Question,
    ensures
        js(out, me, e) == out + written(js_of(me, e)),
    decreases e, 0nat,
{
    lemma_literals();
    let x = js_of(me, e);
    match e {
        Node::Question { value, mode, .. } => match mode {
            QuestionMode::Throws => {
                lemma_text(m, g, out, me, vis, taken, *value);
            },
            QuestionMode::Option => {
                lemma_text(m, g, out + "(() => { const __o = "@, me, vis, taken, *value);
                let first = Stm::Const("__o"@, js_of(me, *value));
                let second = Stm::ThrowNoneIf("__o"@, 1);
                let field = Js::Field(Box::new(Js::Ident("__o"@)), 0);
                let third = Stm::Return(field);
                lemma_written_one(first);
                lemma_written_append(seq![first], second);
                lemma_written_append(seq![first] + seq![second], third);
                assert(written(Js::Ident("__o"@)) == "__o"@);
                assert(written(field) == "__o"@ + ".values["@ + decimal(0) + "]"@);
                assert(js(out, me, e) =~= out + written(x));
            },
        },
        _ => {},
    }
}

proof fn lemma_text_intrinsic(m: Model, g: spec_fn(Seq<char>) -> Value, out: Seq<char>, me: Seq<char>, vis: Set<Seq<char>>, taken: Set<Seq<char>>, e: Node)
    requires
        fits(m, g, me, vis, taken, e),
        e is Intrinsic,
    ensures
        js(out, me, e) == out + written(js_of(me, e)),
    decreases e, 0nat,
{
    if let Node::Intrinsic { name, args, .. } = e {
        let x = js_of(me, e);
        lemma_list_of(me, args);
        lemma_fits_at(m, g, me, vis, taken, args, 0);
        let a = written(js_of(me, args[0]));
        if arity(name) == 1 {
            lemma_text_one(out, name, a);
            lemma_text(m, g, out + form_of(name)->Some_0.open, me, vis, taken, args[0]);
            assert(js(out, me, e) =~= out + written(x));
        } else if arity(name) == 3 {
            lemma_fits_at(m, g, me, vis, taken, args, 1);
            lemma_fits_at(m, g, me, vis, taken, args, 2);
            let b = written(js_of(me, args[1]));
            let c = written(js_of(me, args[2]));
            lemma_text_three(out, name, a, b, c);
            let f = form_of(name)->Some_0;
            lemma_text(m, g, out + f.open, me, vis, taken, args[0]);
            let one = js(out + f.open, me, args[0]);
            lemma_text(m, g, one + f.first, me, vis, taken, args[1]);
            let two = js(one + f.first, me, args[1]);
            lemma_text(m, g, two + f.second, me, vis, taken, args[2]);
            assert(js(out, me, e) =~= out + written(x));
        } else {
            lemma_fits_at(m, g, me, vis, taken, args, 1);
            let b = written(js_of(me, args[1]));
            lemma_form_two(name);
            if form_of(name) is Some {
                lemma_text_two(out, name, a, b);
                let f = form_of(name)->Some_0;
                lemma_text(m, g, out + f.open, me, vis, taken, args[0]);
                let one = js(out + f.open, me, args[0]);
                lemma_text(m, g, one + f.first, me, vis, taken, args[1]);
                assert(js(out, me, e) =~= out + f.open + a + f.first + b + f.second + f.close);
                if let Some(op) = whole_of(name) {
                    let inner = Js::Infix(
                        op,
                        Box::new(js_of(me, args[0])),
                        Box::new(js_of(me, args[1])),
                    );
                    assert(written(inner) == "("@ + a + infix_text(op) + b + ")"@);
                    assert(written(Js::Number(0)) == decimal_int(0));
                }
                assert(js(out, me, e) =~= out + written(x));
            }
        }
    }
}

proof fn lemma_text_list(m: Model, g: spec_fn(Seq<char>) -> Value, out: Seq<char>, me: Seq<char>, vis: Set<Seq<char>>, taken: Set<Seq<char>>, s: Seq<Node>)
    requires
        fits_all(m, g, me, vis, taken, s),
    ensures
        js_list(out, me, s) == out + written_list(list_of(me, s)),
    decreases s, 0nat,
{
    if s.len() > 0 {
        lemma_list_of(me, s);
        let front = list_of(me, s.drop_last());
        assert(list_of(me, s).drop_last() =~= front);
        assert(list_of(me, s).last() == js_of(me, s.last()));
        if s.len() == 1 {
            lemma_text(m, g, out, me, vis, taken, s.last());
        } else {
            lemma_text_list(m, g, out, me, vis, taken, s.drop_last());
            lemma_text(m, g, js_list(out, me, s.drop_last()) + ", "@, me, vis, taken, s.last());
            assert(js_list(out, me, s) =~= out + written_list(list_of(me, s)));
        }
    } else {
        assert(js_list(out, me, s) =~= out + written_list(list_of(me, s)));
    }
}

proof fn lemma_text_binds(out: Seq<char>, subject: Seq<char>, binds: Seq<Option<Bind>>)
    ensures
        js_binds(out, subject, binds) == out + written_stms(binds_of(subject, binds)),
    decreases binds.len(),
{
    if binds.len() > 0 {
        lemma_text_binds(out, subject, binds.drop_last());
        if let Some(b) = binds.last() {
            let field = Js::Field(Box::new(Js::Ident(subject)), (binds.len() - 1) as nat);
            let s = Stm::Const(js_ident(b.name), field);
            assert(written(Js::Ident(subject)) == subject);
            assert(written(field) == subject + ".values["@ + decimal((binds.len() - 1) as nat)
                + "]"@);
            reveal_strlit("]");
            reveal_strlit("; ");
            reveal_strlit("]; ");
            assert("]; "@ =~= "]"@ + "; "@);
            lemma_written_append(binds_of(subject, binds.drop_last()), s);
        }
    }
    assert(js_binds(out, subject, binds) =~= out + written_stms(binds_of(subject, binds)));
}

/// How the head of an arm is emitted.
spec fn arm_head(out: Seq<char>, subject: Seq<char>, p: Pat) -> Seq<char> {
    match p {
        Pat::Variant { tag, bindings, .. } => js_binds(
            out + "if ("@ + subject + ".tag === "@ + decimal(tag as nat) + ") { "@,
            subject,
            bindings,
        ),
        Pat::Wildcard { binding } => match binding {
            Some(b) => out + "{ "@ + "const "@ + js_ident(b.name) + " = "@ + subject + "; "@,
            None => out + "{ "@,
        },
    }
}

proof fn lemma_text_tail(m: Model, g: spec_fn(Seq<char>) -> Value, out: Seq<char>, me: Seq<char>, vis: Set<Seq<char>>, taken: Set<Seq<char>>, subject: Seq<char>, arm: ArmNode)
    requires
        fits_arm(m, g, me, vis, taken, arm),
    ensures
        js_arm(out, me, subject, arm) == arm_head(out, subject, arm.pattern) + written_stm(
            tail_of(me, arm),
        ) + "} "@,
    decreases arm, 0nat,
{
    reveal_strlit("; } ");
    reveal_strlit("; ");
    reveal_strlit("} ");
    reveal_strlit(") return ");
    reveal_strlit(") ");
    reveal_strlit("return ");
    assert("; } "@ =~= "; "@ + "} "@);
    assert(") return "@ =~= ") "@ + "return "@);
    let inner = vis_with(vis, bound_by(arm.pattern));
    let all = taken_with(taken, bound_by(arm.pattern));
    let bound = arm_head(out, subject, arm.pattern);
    let guarded = match arm.guard {
        Some(guard) => js(bound + "if ("@, me, *guard) + ") "@,
        None => bound,
    };
    lemma_text(m, g, guarded + "return "@, me, inner, all, *arm.body);
    let body = written(js_of(me, *arm.body));
    if let Some(guard) = arm.guard {
        lemma_text(m, g, bound + "if ("@, me, inner, all, *guard);
        let test = written(js_of(me, *guard));
        lemma_regroup_guarded(bound, "if ("@, test, ") "@, "return "@, body, "; "@, "} "@);
    } else {
        lemma_regroup(bound, "return "@, body, "; "@, "} "@);
    }
}

/// Grouping does not matter.
proof fn lemma_regroup_guarded(a: Seq<char>, b: Seq<char>, c: Seq<char>, d: Seq<char>, e: Seq<char>, f: Seq<char>, x: Seq<char>, y: Seq<char>)
    ensures
        a + b + c + d + e + f + (x + y) == a + (b + c + (d + e) + f + x) + y,
{
    assert(a + b + c + d + e + f + (x + y) =~= a + (b + c + (d + e) + f + x) + y);
}

/// Grouping does not matter.
proof fn lemma_regroup(a: Seq<char>, b: Seq<char>, c: Seq<char>, x: Seq<char>, y: Seq<char>)
    ensures
        a + b + c + (x + y) == a + (b + c + x) + y,
{
    assert(a + b + c + (x + y) =~= a + (b + c + x) + y);
}

/// Grouping does not matter.
proof fn lemma_regroup_head(a: Seq<char>, b: Seq<char>, c: Seq<char>, d: Seq<char>, e: Seq<char>, f: Seq<char>, s: Seq<char>, x: Seq<char>, y: Seq<char>)
    ensures
        a + b + c + d + e + f + s + x + y == a + (b + c + d + e + f + (s + x) + y),
{
    assert(a + b + c + d + e + f + s + x + y =~= a + (b + c + d + e + f + (s + x) + y));
}

/// Grouping does not matter.
proof fn lemma_regroup_bound(a: Seq<char>, b: Seq<char>, c: Seq<char>, d: Seq<char>, e: Seq<char>, f: Seq<char>, s: Seq<char>, x: Seq<char>, y: Seq<char>)
    ensures
        a + b + c + d + e + f + s + x + y == a + (b + ((c + d + e + f + s) + x) + y),
{
    assert(a + b + c + d + e + f + s + x + y =~= a + (b + ((c + d + e + f + s) + x) + y));
}

/// Grouping does not matter.
proof fn lemma_regroup_bare(a: Seq<char>, b: Seq<char>, x: Seq<char>, y: Seq<char>)
    ensures
        a + b + x + y == a + (b + x + y),
{
    assert(a + b + x + y =~= a + (b + x + y));
}

proof fn lemma_text_head(out: Seq<char>, me: Seq<char>, subject: Seq<char>, arm: ArmNode)
    ensures
        arm_head(out, subject, arm.pattern) + written_stm(tail_of(me, arm)) + "} "@ == out
            + written_stm(arm_of(me, subject, arm)),
{
    let tail = tail_of(me, arm);
    match arm.pattern {
        Pat::Variant { tag, bindings, .. } => {
            let head = out + "if ("@ + subject + ".tag === "@ + decimal(tag as nat) + ") { "@;
            lemma_text_binds(head, subject, bindings);
            let s = binds_of(subject, bindings);
            lemma_written_append(s, tail);
            lemma_regroup_head(
                out,
                "if ("@,
                subject,
                ".tag === "@,
                decimal(tag as nat),
                ") { "@,
                written_stms(s),
                written_stm(tail),
                "} "@,
            );
        },
        Pat::Wildcard { binding } => match binding {
            Some(b) => {
                let first = Stm::Const(js_ident(b.name), Js::Ident(subject));
                assert(written(Js::Ident(subject)) == subject);
                lemma_written_one(first);
                lemma_written_append(seq![first], tail);
                let name = js_ident(b.name);
                let rest = written_stm(tail);
                lemma_regroup_bound(
                    out,
                    "{ "@,
                    "const "@,
                    name,
                    " = "@,
                    subject,
                    "; "@,
                    rest,
                    "} "@,
                );
            },
            None => {
                lemma_written_one(tail);
                let rest = written_stm(tail);
                lemma_regroup_bare(out, "{ "@, rest, "} "@);
            },
        },
    }
}

proof fn lemma_text_arm(m: Model, g: spec_fn(Seq<char>) -> Value, out: Seq<char>, me: Seq<char>, vis: Set<Seq<char>>, taken: Set<Seq<char>>, subject: Seq<char>, arm: ArmNode)
    requires
        fits_arm(m, g, me, vis, taken, arm),
    ensures
        js_arm(out, me, subject, arm) == out + written_stm(arm_of(me, subject, arm)),
    decreases arm, 1nat,
{
    lemma_text_tail(m, g, out, me, vis, taken, subject, arm);
    lemma_text_head(out, me, subject, arm);
}

proof fn lemma_text_arms(m: Model, g: spec_fn(Seq<char>) -> Value, out: Seq<char>, me: Seq<char>, vis: Set<Seq<char>>, taken: Set<Seq<char>>, subject: Seq<char>, s: Seq<ArmNode>)
    requires
        fits_arms(m, g, me, vis, taken, s),
    ensures
        js_arms(out, me, subject, s) == out + written_stms(arms_of(me, subject, s)),
    decreases s, 0nat,
{
    if s.len() > 0 {
        lemma_text_arms(m, g, out, me, vis, taken, subject, s.drop_last());
        let before = js_arms(out, me, subject, s.drop_last());
        lemma_text_arm(m, g, before, me, vis, taken, subject, s.last());
        lemma_written_append(
            arms_of(me, subject, s.drop_last()),
            arm_of(me, subject, s.last()),
        );
    }
    assert(js_arms(out, me, subject, s) =~= out + written_stms(arms_of(me, subject, s)));
}

/// The word of an `Int` gives it back.
proof fn lemma_wrapped_word(n: int)
    requires
        is_int(n),
    ensures
        wrapped((word(n) | word(0)) as int) == n,
        wrapped(n) == n,
{
    let w = word(n);
    assert(w | 0 == w) by (bit_vector);
    assert(word(0) == 0);
}

/// A word read as an `Int` does not depend on when it is read so.
proof fn lemma_word_or(w: u32)
    ensures
        wrapped((word(w as int) | word(0)) as int) == wrapped(w as int),
{
    assert(w | 0 == w) by (bit_vector);
    assert(word(0) == 0);
    assert(word(w as int) == w);
}

/// An intrinsic on two `Int`s.
proof fn lemma_ints(m: Model, name: Seq<char>, a: int, b: int)
    requires
        of_ints(name, a, b) is Some,
    ensures
        ({
            let v = of_ints(name, a, b);
            match whole_of(name) {
                Some(op) => match infix(m, op, Value::Int(a), Value::Int(b)) {
                    Some(q) => infix(m, Infix::Or, q, Value::Int(0)) == v,
                    None => false,
                },
                None => match infix_of(name) {
                    Some(op) => infix(m, op, Value::Int(a), Value::Int(b)) == v,
                    None => false,
                },
            }
        }),
{
    names_differ();
    if name == "i32_div_s"@ {
        lemma_wrapped_word(quotient(a, b));
    } else if name == "i32_shr_u"@ {
        lemma_word_or(word(a) >> crate::meaning::places(b));
    }
}

/// An intrinsic on two `Float`s.
proof fn lemma_floats(m: Model, name: Seq<char>, a: int, b: int)
    requires
        of_floats(m, name, a, b) is Some,
    ensures
        whole_of(name) is None,
        infix_of(name) is Some,
        infix(m, infix_of(name)->Some_0, Value::Float(a), Value::Float(b)) == of_floats(
            m,
            name,
            a,
            b,
        ),
{
    names_differ();
}

/// An intrinsic of two arguments computes what it means.
proof fn lemma_ops_two(m: Model, name: Seq<char>, a: Value, b: Value)
    requires
        of_two(m, name, a, b) is Some,
    ensures
        ({
            let v = of_two(m, name, a, b);
            match whole_of(name) {
                Some(op) => match infix(m, op, a, b) {
                    Some(q) => infix(m, Infix::Or, q, Value::Int(0)) == v,
                    None => false,
                },
                None => match infix_of(name) {
                    Some(op) => infix(m, op, a, b) == v,
                    None => match native_of(name) {
                        Some(f) => native2(f, a, b) == v,
                        None => false,
                    },
                },
            }
        }),
{
    names_differ();
    match (a, b) {
        (Value::Int(x), Value::Int(y)) => {
            lemma_ints(m, name, x, y);
        },
        (Value::Float(x), Value::Float(y)) => {
            lemma_floats(m, name, x, y);
        },
        _ => {},
    }
}

/// An intrinsic of one argument computes what it means.
proof fn lemma_ops_one(m: Model, name: Seq<char>, a: Value)
    requires
        of_one(m, name, a) is Some,
    ensures
        whole_of(name) is None,
        infix_of(name) is None,
        native_of(name) is Some,
        native1(m, native_of(name)->Some_0, a) == of_one(m, name, a),
{
    names_differ();
}

/// An intrinsic of three arguments computes what it means.
proof fn lemma_ops_three(name: Seq<char>, a: Value, b: Value, c: Value)
    requires
        of_three(name, a, b, c) is Some,
    ensures
        whole_of(name) is None,
        infix_of(name) is None,
        native_of(name) is Some,
        native3(native_of(name)->Some_0, a, b, c) == of_three(name, a, b, c),
{
    names_differ();
}

/// A binary operator computes what it means.
proof fn lemma_apply(m: Model, op: BinaryOp, a: Value, b: Value)
    requires
        apply(m, op, a, b) is Some,
    ensures
        !(op is Div && a is Int) ==> infix(m, operator(op), a, b) == apply(m, op, a, b),
        op is Div && a is Int ==> (match infix(m, Infix::Over, a, b) {
            Some(q) => infix(m, Infix::Or, q, Value::Int(0)) == apply(m, op, a, b),
            None => false,
        }),
{
    if op is Div && a is Int && b is Int {
        lemma_wrapped_word(quotient(a->Int_0, b->Int_0));
    }
}

/// Two expressions, one after the other.
pub proof fn lemma_eval_two(m: Model, me: Seq<char>, env: Env, s: Seq<Node>, t: Seq<Event>)
    requires
        s.len() == 2,
    ensures
        ({
            let r = eval_all(m, me, env, s, t);
            let a = eval(m, me, env, s[0], t);
            let b = eval(m, me, env, s[1], a.trace);
            match a.out {
                Outcome::Done(x) => match b.out {
                    Outcome::Done(y) => r.stop is None && r.vals.len() == 2 && r.vals[0] == x
                        && r.vals[1] == y && r.trace == b.trace,
                    out => r.stop == Some(out) && r.trace == b.trace,
                },
                out => r.stop == Some(out) && r.trace == a.trace,
            }
        }),
{
    reveal_with_fuel(eval_all, 3);
    let one = s.drop_last();
    assert(one.last() == s[0]);
    assert(one.drop_last().len() == 0);
    assert(eval_all(m, me, env, one.drop_last(), t) == (Runs {
        vals: Seq::empty(),
        stop: None,
        trace: t,
    }));
}

/// Running JavaScript's statements for a list of arms is choosing among them.
pub open spec fn same_choice(c: Choice, f: Flow, sc: Scope) -> bool {
    match c {
        Choice::Taken(r) => !(r.out is Stuck) ==> f == Flow::Off(r),
        Choice::Missed(after) => f == Flow::On(sc, after),
    }
}

/// What is emitted does what the program says.
#[verifier::rlimit(60)]
proof fn lemma_value(m: Model, g: spec_fn(Seq<char>) -> Value, me: Seq<char>, vis: Set<Seq<char>>, taken: Set<Seq<char>>, env: Env, sc: Scope, e: Node, t: Seq<Event>)
    requires
        fits(m, g, me, vis, taken, e),
        agree(vis, taken, env, sc),
        !(eval(m, me, env, e, t).out is Stuck),
    ensures
        run(m, g, sc, js_of(me, e), t) == eval(m, me, env, e, t),
    decreases e, 1nat,
{
    match e {
        Node::Int(_) => {},
        Node::Float(_) => {},
        Node::Bool(_) => {},
        Node::String(_) => {},
        Node::Char(_) => {},
        Node::Unit => {},
        Node::Fn { .. } => {},
        Node::Var { name, .. } => {
            assert(vis.contains(name));
        },
        Node::FunctionRef { name, .. } => {
            assert(!sc.dom().contains(js_ident(name)));
        },
        Node::Let { .. } => {
            lemma_value_let(m, g, me, vis, taken, env, sc, e, t);
        },
        Node::If { cond, then, els, .. } => {
            let c = eval(m, me, env, *cond, t);
            lemma_value(m, g, me, vis, taken, env, sc, *cond, t);
            match c.out {
                Outcome::Done(Value::Bool(true)) => {
                    lemma_value(m, g, me, vis, taken, env, sc, *then, c.trace);
                },
                Outcome::Done(Value::Bool(false)) => {
                    lemma_value(m, g, me, vis, taken, env, sc, *els, c.trace);
                },
                _ => {},
            }
        },
        Node::Array { elems, .. } => {
            lemma_values(m, g, me, vis, taken, env, sc, elems, t);
        },
        Node::RecordValue { fields, .. } => {
            lemma_values(m, g, me, vis, taken, env, sc, fields, t);
        },
        Node::EnumValue { payload, .. } => {
            lemma_values(m, g, me, vis, taken, env, sc, payload, t);
        },
        Node::FieldAccess { target, .. } => {
            lemma_value(m, g, me, vis, taken, env, sc, *target, t);
        },
        Node::Call { callee, args, .. } => {
            lemma_value(m, g, me, vis, taken, env, sc, *callee, t);
            let f = eval(m, me, env, *callee, t);
            if f.out is Done {
                lemma_values(m, g, me, vis, taken, env, sc, args, f.trace);
            }
        },
        Node::TailSelfCall { args, .. } => {
            assert(!sc.dom().contains(js_ident(me)));
            assert(run(m, g, sc, Js::Ident(js_ident(me)), t) == done((m.function)(me), t));
            lemma_values(m, g, me, vis, taken, env, sc, args, t);
        },
        Node::Platform { args, .. } => {
            lemma_values(m, g, me, vis, taken, env, sc, args, t);
        },
        Node::Intrinsic { .. } => {
            lemma_value_intrinsic(m, g, me, vis, taken, env, sc, e, t);
        },
        Node::Binary { .. } => {
            lemma_value_binary(m, g, me, vis, taken, env, sc, e, t);
        },
        Node::Concat { left, right } => {
            let a = eval(m, me, env, *left, t);
            lemma_value(m, g, me, vis, taken, env, sc, *left, t);
            if a.out is Done {
                lemma_value(m, g, me, vis, taken, env, sc, *right, a.trace);
                let b = eval(m, me, env, *right, a.trace);
                if b.out is Done {
                    lemma_apply(m, BinaryOp::Concat, a.out->Done_0, b.out->Done_0);
                }
            }
        },
        Node::CharFromCode(value) => {
            names_differ();
            lemma_value(m, g, me, vis, taken, env, sc, *value, t);
        },
        Node::StringFromChar(value) => {
            names_differ();
            lemma_value(m, g, me, vis, taken, env, sc, *value, t);
            let s = seq![js_of(me, *value)];
            assert(s.drop_last() =~= Seq::<Js>::empty());
            assert(run_all(m, g, sc, Seq::<Js>::empty(), t) == (Runs {
                vals: Seq::empty(),
                stop: None,
                trace: t,
            }));
            assert(s.last() == js_of(me, *value));
            let v = eval(m, me, env, *value, t);
            let r = run_all(m, g, sc, s, t);
            if v.out is Done {
                assert(r.vals.len() == 1);
                assert(r.vals[0] == v.out->Done_0);
                assert(r.trace == v.trace);
                assert(native(m, Native::FromPoint, r.vals) == of_one(
                    m,
                    "string_from_char"@,
                    v.out->Done_0,
                ));
            } else {
                assert(r.stop == Some(v.out));
            }
            assert(run(m, g, sc, Js::Native(Native::FromPoint, s), t) == eval(m, me, env, e, t));
        },
        Node::Match { .. } => {
            lemma_value_match(m, g, me, vis, taken, env, sc, e, t);
        },
        Node::Throw { value } => {
            lemma_value(m, g, me, vis, taken, env, sc, *value, t);
            lemma_run_one(m, g, sc, Stm::ThrowError(js_of(me, *value)), t);
        },
        Node::Try { .. } => {
            lemma_value_try(m, g, me, vis, taken, env, sc, e, t);
        },
        Node::Question { .. } => {
            lemma_value_question(m, g, me, vis, taken, env, sc, e, t);
        },
        Node::Panic { message } => {
            lemma_value(m, g, me, vis, taken, env, sc, *message, t);
            lemma_run_one(m, g, sc, Stm::ThrowPanic(js_of(me, *message)), t);
        },
        Node::Retain { value } => {
            lemma_value(m, g, me, vis, taken, env, sc, *value, t);
        },
        Node::Release { next, .. } => {
            lemma_value(m, g, me, vis, taken, env, sc, *next, t);
        },
    }
}

proof fn lemma_value_let(m: Model, g: spec_fn(Seq<char>) -> Value, me: Seq<char>, vis: Set<Seq<char>>, taken: Set<Seq<char>>, env: Env, sc: Scope, e: Node, t: Seq<Event>)
    requires
        e is Let,
        fits(m, g, me, vis, taken, e),
        agree(vis, taken, env, sc),
        !(eval(m, me, env, e, t).out is Stuck),
    ensures
        run(m, g, sc, js_of(me, e), t) == eval(m, me, env, e, t),
    decreases e, 0nat,
{
    if let Node::Let { name, value, next, .. } = e {
        let ident = js_ident(name);
        let inner = taken.insert(ident);
        let first = Stm::Const(ident, js_of(me, *value));
        let second = Stm::Return(js_of(me, *next));
        let hidden = sc.insert(ident, None);
        assert(agree(vis.remove(name), inner, env, hidden));
        lemma_value(m, g, me, vis.remove(name), inner, env, hidden, *value, t);
        lemma_run_one(m, g, sc, first, t);
        lemma_run_join(m, g, sc, seq![first], seq![second], t);
        let v = eval(m, me, env, *value, t);
        if let Outcome::Done(x) = v.out {
            let env2 = env.insert(name, x);
            let sc2 = sc.insert(ident, Some(x));
            assert(agree(vis.insert(name), inner, env2, sc2));
            lemma_value(m, g, me, vis.insert(name), inner, env2, sc2, *next, v.trace);
            lemma_run_one(m, g, sc2, second, v.trace);
        }
    }
}

proof fn lemma_value_intrinsic(m: Model, g: spec_fn(Seq<char>) -> Value, me: Seq<char>, vis: Set<Seq<char>>, taken: Set<Seq<char>>, env: Env, sc: Scope, e: Node, t: Seq<Event>)
    requires
        e is Intrinsic,
        fits(m, g, me, vis, taken, e),
        agree(vis, taken, env, sc),
        !(eval(m, me, env, e, t).out is Stuck),
    ensures
        run(m, g, sc, js_of(me, e), t) == eval(m, me, env, e, t),
    decreases e, 0nat,
{
    if let Node::Intrinsic { name, args, .. } = e {
        lemma_values(m, g, me, vis, taken, env, sc, args, t);
        let s = eval_all(m, me, env, args, t);
        lemma_eval_len(m, me, env, args, t);
        lemma_list_of(me, args);
        if arity(name) == 2 {
            lemma_eval_two(m, me, env, args, t);
            lemma_fits_at(m, g, me, vis, taken, args, 0);
            lemma_fits_at(m, g, me, vis, taken, args, 1);
            let a = eval(m, me, env, args[0], t);
            lemma_value(m, g, me, vis, taken, env, sc, args[0], t);
            if a.out is Done {
                lemma_value(m, g, me, vis, taken, env, sc, args[1], a.trace);
                let b = eval(m, me, env, args[1], a.trace);
                if b.out is Done {
                    lemma_ops_two(m, name, a.out->Done_0, b.out->Done_0);
                }
            }
            if let Some(op) = whole_of(name) {
                let inner = Js::Infix(
                    op,
                    Box::new(js_of(me, args[0])),
                    Box::new(js_of(me, args[1])),
                );
                let r = run(m, g, sc, inner, t);
                assert(run(m, g, sc, Js::Number(0), r.trace) == done(Value::Int(0), r.trace));
            } else if infix_of(name) is None {
                lemma_form_two(name);
            }
        } else if arity(name) == 1 {
            if s.stop is None {
                lemma_ops_one(m, name, s.vals[0]);
            } else {
                lemma_text_one(Seq::empty(), name, Seq::empty());
            }
        } else {
            if s.stop is None {
                lemma_ops_three(name, s.vals[0], s.vals[1], s.vals[2]);
            } else {
                lemma_text_three(Seq::empty(), name, Seq::empty(), Seq::empty(), Seq::empty());
            }
        }
    }
}

proof fn lemma_value_binary(m: Model, g: spec_fn(Seq<char>) -> Value, me: Seq<char>, vis: Set<Seq<char>>, taken: Set<Seq<char>>, env: Env, sc: Scope, e: Node, t: Seq<Event>)
    requires
        e is Binary,
        fits(m, g, me, vis, taken, e),
        agree(vis, taken, env, sc),
        !(eval(m, me, env, e, t).out is Stuck),
    ensures
        run(m, g, sc, js_of(me, e), t) == eval(m, me, env, e, t),
    decreases e, 0nat,
{
    if let Node::Binary { op, ty, left, right } = e {
        let a = eval(m, me, env, *left, t);
        lemma_value(m, g, me, vis, taken, env, sc, *left, t);
        let x = Box::new(js_of(me, *left));
        let y = Box::new(js_of(me, *right));
        if a.out is Done {
            lemma_value(m, g, me, vis, taken, env, sc, *right, a.trace);
            let b = eval(m, me, env, *right, a.trace);
            if b.out is Done {
                lemma_apply(m, op, a.out->Done_0, b.out->Done_0);
            }
        }
        if op == BinaryOp::Div && ty == Ty::Int {
            let inner = Js::Infix(Infix::Over, x, y);
            let r = run(m, g, sc, inner, t);
            assert(run(m, g, sc, Js::Number(0), r.trace) == done(Value::Int(0), r.trace));
        }
    }
}

proof fn lemma_value_match(m: Model, g: spec_fn(Seq<char>) -> Value, me: Seq<char>, vis: Set<Seq<char>>, taken: Set<Seq<char>>, env: Env, sc: Scope, e: Node, t: Seq<Event>)
    requires
        e is Match,
        fits(m, g, me, vis, taken, e),
        agree(vis, taken, env, sc),
        !(eval(m, me, env, e, t).out is Stuck),
    ensures
        run(m, g, sc, js_of(me, e), t) == eval(m, me, env, e, t),
    decreases e, 0nat,
{
    if let Node::Match { scrutinee, arms, .. } = e {
        let first = Stm::Const("__m"@, js_of(me, *scrutinee));
        let s = arms_of(me, "__m"@, arms);
        let hidden = sc.insert("__m"@, None);
        assert(agree(vis, taken, env, hidden));
        lemma_value(m, g, me, vis, taken, env, hidden, *scrutinee, t);
        lemma_run_one(m, g, sc, first, t);
        lemma_run_join(m, g, sc, seq![first], s, t);
        lemma_run_join(m, g, sc, seq![first] + s, seq![Stm::ThrowUnmatched], t);
        let v = eval(m, me, env, *scrutinee, t);
        if let Outcome::Done(x) = v.out {
            let sc2 = sc.insert("__m"@, Some(x));
            assert(agree(vis, taken, env, sc2));
            lemma_value_arms(m, g, me, vis, taken, env, sc2, "__m"@, arms, x, v.trace);
        }
    }
}

proof fn lemma_value_try(m: Model, g: spec_fn(Seq<char>) -> Value, me: Seq<char>, vis: Set<Seq<char>>, taken: Set<Seq<char>>, env: Env, sc: Scope, e: Node, t: Seq<Event>)
    requires
        e is Try,
        fits(m, g, me, vis, taken, e),
        agree(vis, taken, env, sc),
        !(eval(m, me, env, e, t).out is Stuck),
    ensures
        run(m, g, sc, js_of(me, e), t) == eval(m, me, env, e, t),
    decreases e, 0nat,
{
    if let Node::Try { body, arms, .. } = e {
        let s = arms_of(me, "__err"@, arms);
        lemma_value(m, g, me, vis, taken, env, sc, *body, t);
        lemma_run_one(m, g, sc, Stm::Catch(js_of(me, *body), s), t);
        let v = eval(m, me, env, *body, t);
        if let Outcome::Raised(x) = v.out {
            let sc2 = sc.insert("__err"@, Some(x));
            assert(agree(vis, taken, env, sc2));
            lemma_value_arms(m, g, me, vis, taken, env, sc2, "__err"@, arms, x, v.trace);
        }
    }
}

proof fn lemma_value_question(m: Model, g: spec_fn(Seq<char>) -> Value, me: Seq<char>, vis: Set<Seq<char>>, taken: Set<Seq<char>>, env: Env, sc: Scope, e: Node, t: Seq<Event>)
    requires
        e is Question,
        fits(m, g, me, vis, taken, e),
        agree(vis, taken, env, sc),
        !(eval(m, me, env, e, t).out is Stuck),
    ensures
        run(m, g, sc, js_of(me, e), t) == eval(m, me, env, e, t),
    decreases e, 0nat,
{
    if let Node::Question { value, mode, .. } = e {
        if mode == QuestionMode::Throws {
            lemma_value(m, g, me, vis, taken, env, sc, *value, t);
        } else {
            let first = Stm::Const("__o"@, js_of(me, *value));
            let second = Stm::ThrowNoneIf("__o"@, 1);
            let field = Js::Field(Box::new(Js::Ident("__o"@)), 0);
            let third = Stm::Return(field);
            let hidden = sc.insert("__o"@, None);
            assert(agree(vis, taken, env, hidden));
            lemma_value(m, g, me, vis, taken, env, hidden, *value, t);
            lemma_run_one(m, g, sc, first, t);
            lemma_run_join(m, g, sc, seq![first], seq![second], t);
            lemma_run_join(m, g, sc, seq![first] + seq![second], seq![third], t);
            let v = eval(m, me, env, *value, t);
            if let Outcome::Done(x) = v.out {
                let sc2 = sc.insert("__o"@, Some(x));
                lemma_run_one(m, g, sc2, second, v.trace);
                lemma_run_one(m, g, sc2, third, v.trace);
                assert(run(m, g, sc2, Js::Ident("__o"@), v.trace) == done(x, v.trace));
            }
        }
    }
}

/// Every value has its place.
proof fn lemma_eval_len(m: Model, me: Seq<char>, env: Env, s: Seq<Node>, t: Seq<Event>)
    ensures
        eval_all(m, me, env, s, t).stop is None ==> eval_all(m, me, env, s, t).vals.len()
            == s.len(),
    decreases s.len(),
{
    if s.len() > 0 {
        lemma_eval_len(m, me, env, s.drop_last(), t);
    }
}

proof fn lemma_values(m: Model, g: spec_fn(Seq<char>) -> Value, me: Seq<char>, vis: Set<Seq<char>>, taken: Set<Seq<char>>, env: Env, sc: Scope, s: Seq<Node>, t: Seq<Event>)
    requires
        fits_all(m, g, me, vis, taken, s),
        agree(vis, taken, env, sc),
        eval_all(m, me, env, s, t).stop != Some(Outcome::Stuck),
    ensures
        run_all(m, g, sc, list_of(me, s), t) == eval_all(m, me, env, s, t),
    decreases s, 0nat,
{
    if s.len() > 0 {
        lemma_values(m, g, me, vis, taken, env, sc, s.drop_last(), t);
        assert(list_of(me, s).drop_last() =~= list_of(me, s.drop_last()));
        let before = eval_all(m, me, env, s.drop_last(), t);
        if before.stop is None {
            lemma_value(m, g, me, vis, taken, env, sc, s.last(), before.trace);
        }
    }
}

/// The statements that bind the fields of a variant bind them.
proof fn lemma_binds(m: Model, g: spec_fn(Seq<char>) -> Value, vis: Set<Seq<char>>, taken: Set<Seq<char>>, env: Env, sc: Scope, subject: Seq<char>, tag: nat, vals: Seq<Value>, binds: Seq<Option<Bind>>, t: Seq<Event>)
    requires
        agree(vis, taken, env, sc),
        is_reserved(subject),
        all_free(vis, binds),
        binds.len() <= vals.len(),
        sc.dom().contains(subject),
        sc[subject] == Some(Value::Variant(tag, vals)),
    ensures
        match run_stms(m, g, sc, binds_of(subject, binds), t) {
            Flow::On(inner, after) => {
                &&& after == t
                &&& agree(
                    vis_with(vis, binds),
                    taken_with(taken, binds),
                    bind_all(env, binds, vals),
                    inner,
                )
                &&& inner.dom().contains(subject)
                &&& inner[subject] == sc[subject]
            },
            Flow::Off(_) => false,
        },
    decreases binds.len(),
{
    if binds.len() > 0 {
        let front = binds.drop_last();
        lemma_binds(m, g, vis, taken, env, sc, subject, tag, vals, front, t);
        if let Some(b) = binds.last() {
            let ident = js_ident(b.name);
            let k = (binds.len() - 1) as nat;
            let field = Js::Field(Box::new(Js::Ident(subject)), k);
            let s = Stm::Const(ident, field);
            lemma_run_join(m, g, sc, binds_of(subject, front), seq![s], t);
            if let Flow::On(inner, after) = run_stms(m, g, sc, binds_of(subject, front), t) {
                lemma_run_one(m, g, inner, s, t);
                let hidden = inner.insert(ident, None);
                assert(run(m, g, hidden, Js::Ident(subject), t) == done(
                    Value::Variant(tag, vals),
                    t,
                ));
                assert(run(m, g, hidden, field, t) == done(vals[k as int], t));
                assert(agree(
                    vis_with(vis, binds),
                    taken_with(taken, binds),
                    bind_all(env, binds, vals),
                    inner.insert(ident, Some(vals[k as int])),
                ));
            }
        }
    }
}

/// The end of an arm whose pattern fits.
#[verifier::rlimit(60)]
proof fn lemma_value_tail(m: Model, g: spec_fn(Seq<char>) -> Value, me: Seq<char>, vis: Set<Seq<char>>, taken: Set<Seq<char>>, env: Env, sc: Scope, arm: ArmNode, t: Seq<Event>)
    requires
        agree(vis, taken, env, sc),
        match arm.guard {
            Some(guard) => fits(m, g, me, vis, taken, *guard),
            None => true,
        },
        fits(m, g, me, vis, taken, *arm.body),
    ensures
        same_choice(
            take_arm(m, me, env, arm, t),
            run_stm(m, g, sc, tail_of(me, arm), t),
            sc,
        ),
    decreases arm, 0nat,
{
    match arm.guard {
        Some(guard) => {
            let c = eval(m, me, env, *guard, t);
            if !(c.out is Stuck) {
                lemma_value(m, g, me, vis, taken, env, sc, *guard, t);
            }
            if c.out == Outcome::Done(Value::Bool(true)) && !(eval(
                m,
                me,
                env,
                *arm.body,
                c.trace,
            ).out is Stuck) {
                lemma_value(m, g, me, vis, taken, env, sc, *arm.body, c.trace);
            }
        },
        None => {
            if !(eval(m, me, env, *arm.body, t).out is Stuck) {
                lemma_value(m, g, me, vis, taken, env, sc, *arm.body, t);
            }
        },
    }
}

#[verifier::rlimit(60)]
proof fn lemma_value_arm(m: Model, g: spec_fn(Seq<char>) -> Value, me: Seq<char>, vis: Set<Seq<char>>, taken: Set<Seq<char>>, env: Env, sc: Scope, subject: Seq<char>, arm: ArmNode, v: Value, t: Seq<Event>)
    requires
        fits_arm(m, g, me, vis, taken, arm),
        agree(vis, taken, env, sc),
        is_reserved(subject),
        sc.dom().contains(subject),
        sc[subject] == Some(v),
    ensures
        same_choice(
            try_arm(m, me, env, arm, v, t),
            run_stm(m, g, sc, arm_of(me, subject, arm), t),
            sc,
        ),
    decreases arm, 1nat,
{
    let inner = vis_with(vis, bound_by(arm.pattern));
    let all = taken_with(taken, bound_by(arm.pattern));
    let tail = tail_of(me, arm);
    match arm.pattern {
        Pat::Variant { tag, bindings, .. } => {
            if let Value::Variant(is, vals) = v {
                if is == tag && bindings.len() <= vals.len() {
                    lemma_binds(m, g, vis, taken, env, sc, subject, is, vals, bindings, t);
                    let s = binds_of(subject, bindings);
                    lemma_run_join(m, g, sc, s, seq![tail], t);
                    if let Flow::On(sc2, after) = run_stms(m, g, sc, s, t) {
                        let env2 = bind_all(env, bindings, vals);
                        lemma_run_one(m, g, sc2, tail, t);
                        lemma_value_tail(m, g, me, inner, all, env2, sc2, arm, t);
                    }
                }
            }
        },
        Pat::Wildcard { binding } => {
            let p = seq![binding];
            assert(p.drop_last() =~= Seq::<Option<Bind>>::empty());
            assert(vis_with(vis, p.drop_last()) == vis);
            assert(taken_with(taken, p.drop_last()) == taken);
            match binding {
                Some(b) => {
                    let ident = js_ident(b.name);
                    assert(inner == vis.insert(b.name));
                    assert(all == taken.insert(ident));
                    let first = Stm::Const(ident, Js::Ident(subject));
                    let hidden = sc.insert(ident, None);
                    assert(run(m, g, hidden, Js::Ident(subject), t) == done(v, t));
                    lemma_run_one(m, g, sc, first, t);
                    lemma_run_join(m, g, sc, seq![first], seq![tail], t);
                    let env2 = env.insert(b.name, v);
                    let sc2 = sc.insert(ident, Some(v));
                    assert(agree(inner, all, env2, sc2));
                    lemma_run_one(m, g, sc2, tail, t);
                    lemma_value_tail(m, g, me, inner, all, env2, sc2, arm, t);
                },
                None => {
                    lemma_run_one(m, g, sc, tail, t);
                    lemma_value_tail(m, g, me, inner, all, env, sc, arm, t);
                },
            }
        },
    }
}

proof fn lemma_value_arms(m: Model, g: spec_fn(Seq<char>) -> Value, me: Seq<char>, vis: Set<Seq<char>>, taken: Set<Seq<char>>, env: Env, sc: Scope, subject: Seq<char>, s: Seq<ArmNode>, v: Value, t: Seq<Event>)
    requires
        fits_arms(m, g, me, vis, taken, s),
        agree(vis, taken, env, sc),
        is_reserved(subject),
        sc.dom().contains(subject),
        sc[subject] == Some(v),
    ensures
        same_choice(
            choose_arm(m, me, env, s, v, t),
            run_stms(m, g, sc, arms_of(me, subject, s), t),
            sc,
        ),
    decreases s, 0nat,
{
    if s.len() > 0 {
        let front = s.drop_last();
        lemma_value_arms(m, g, me, vis, taken, env, sc, subject, front, v, t);
        let last = arm_of(me, subject, s.last());
        lemma_run_join(m, g, sc, arms_of(me, subject, front), seq![last], t);
        if let Choice::Missed(after) = choose_arm(m, me, env, front, v, t) {
            lemma_value_arm(m, g, me, vis, taken, env, sc, subject, s.last(), v, after);
            lemma_run_one(m, g, sc, last, after);
        }
    }
}

/// What a node is emitted as evaluates to what the node does: the same value, error,
/// propagated `None` or panic, with the same calls of the platform in the same order.
pub proof fn emitted_code_does_what_the_program_says(
    m: Model,
    g: spec_fn(Seq<char>) -> Value,
    me: Seq<char>,
    vis: Set<Seq<char>>,
    taken: Set<Seq<char>>,
    e: Node,
)
    requires
        fits(m, g, me, vis, taken, e),
    ensures
        exists|x: Js|
            #![trigger written(x)]
            {
                &&& js(Seq::empty(), me, e) == written(x)
                &&& forall|env: Env, sc: Scope, t: Seq<Event>|
                    #![trigger run(m, g, sc, x, t), eval(m, me, env, e, t)]
                    agree(vis, taken, env, sc) && !(eval(m, me, env, e, t).out is Stuck) ==> run(
                        m,
                        g,
                        sc,
                        x,
                        t,
                    ) == eval(m, me, env, e, t)
            },
{
    let x = lemma_emitted(m, g, me, vis, taken, e);
    let none = Seq::<char>::empty();
    assert(js(none, me, e) == none + written(x));
    assert(none + written(x) =~= written(x));
}

/// What a node is emitted as, wherever it stands.
pub proof fn lemma_emitted(
    m: Model,
    g: spec_fn(Seq<char>) -> Value,
    me: Seq<char>,
    vis: Set<Seq<char>>,
    taken: Set<Seq<char>>,
    e: Node,
) -> (x: Js)
    requires
        fits(m, g, me, vis, taken, e),
    ensures
        forall|out: Seq<char>| #[trigger] js(out, me, e) == out + written(x),
        forall|env: Env, sc: Scope, t: Seq<Event>|
            #![trigger run(m, g, sc, x, t), eval(m, me, env, e, t)]
            agree(vis, taken, env, sc) && !(eval(m, me, env, e, t).out is Stuck) ==> run(
                m,
                g,
                sc,
                x,
                t,
            ) == eval(m, me, env, e, t),
{
    let x = js_of(me, e);
    assert forall|out: Seq<char>| #[trigger] js(out, me, e) == out + written(x) by {
        lemma_text(m, g, out, me, vis, taken, e);
    }
    assert forall|env: Env, sc: Scope, t: Seq<Event>|
        #![trigger run(m, g, sc, x, t), eval(m, me, env, e, t)]
        agree(vis, taken, env, sc) && !(eval(m, me, env, e, t).out is Stuck) implies run(
        m,
        g,
        sc,
        x,
        t,
    ) == eval(m, me, env, e, t) by {
        lemma_value(m, g, me, vis, taken, env, sc, e, t);
    }
    x
}

} // verus!
