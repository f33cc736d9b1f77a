use crate::ast::{
    join_printed, lemma_deep_view_seq_index, spec_bool_chars, spec_i64_chars, spec_print,
    spec_print_list, Node, NodeV,
};
use crate::tokens::str_eq;
use vstd::prelude::*;

verus! {

/// All types of language objects. These are resolved from AST nodes,
/// and represent any kind of evaluated input. A function value names
/// the scope it captured by its index in the `Environment` it was
/// evaluated in.
#[derive(Debug, PartialEq, Eq)]
pub enum Object {
    Integer { value: i64 },
    Boolean { value: bool },
    ReturnValue { value: Box<Object> },
    Error { value: String },
    Function { parameters: Vec<Node>, body: Box<Node>, env: usize },
    Null,
}

/// The mathematical model of an object.
pub enum ObjV {
    Integer { value: i64 },
    Boolean { value: bool },
    ReturnValue { value: Box<ObjV> },
    Error { value: Seq<char> },
    Function { parameters: Seq<NodeV>, body: Box<NodeV>, env: int },
    Null,
}

impl Object {
    /// The model of this object.
    pub open spec fn deep_view(self) -> ObjV
        decreases self,
    {
        match self {
            Object::Integer { value } => ObjV::Integer { value },
            Object::Boolean { value } => ObjV::Boolean { value },
            Object::ReturnValue { value } => ObjV::ReturnValue {
                value: Box::new((*value).deep_view()),
            },
            Object::Error { value } => ObjV::Error { value: value@ },
            Object::Function { parameters, body, env } => ObjV::Function {
                parameters: Node::deep_view_seq(parameters@),
                body: Box::new((*body).deep_view()),
                env: env as int,
            },
            Object::Null => ObjV::Null,
        }
    }
}

/// The rendering of an object's type name.
pub open spec fn spec_obj_name(o: ObjV) -> Seq<char> {
    match o {
        ObjV::Integer { .. } => "INTEGER"@,
        ObjV::Boolean { .. } => "BOOLEAN"@,
        ObjV::ReturnValue { .. } => "RETURN_VALUE"@,
        ObjV::Error { .. } => "ERROR"@,
        ObjV::Function { .. } => "FUNCTION"@,
        ObjV::Null => "NULL"@,
    }
}

/// The human-readable rendering of an object.
pub open spec fn spec_inspect(o: ObjV) -> Seq<char>
    decreases o,
{
    match o {
        ObjV::Integer { value } => spec_i64_chars(value),
        ObjV::Boolean { value } => spec_bool_chars(value),
        ObjV::ReturnValue { value } => spec_inspect(*value),
        ObjV::Error { value } => "ERROR: "@ + value,
        ObjV::Function { parameters, body, .. } => "fn("@ + spec_print_list(parameters, ", "@)
            + ") {\n"@ + spec_print(*body) + "\n}"@,
        ObjV::Null => "null"@,
    }
}

impl Object {
    /// Returns the string representation of an Object.
    pub fn inspect(&self) -> (r: String)
        ensures
            r@ == spec_inspect(self.deep_view()),
        decreases *self,
    {
        match self {
            Object::Integer { value } => crate::ast::i64_to_string(*value),
            Object::Boolean { value } => crate::ast::bool_to_string(*value),
            Object::ReturnValue { value } => value.inspect(),
            Object::Error { value } => {
                let mut e = String::from_str("ERROR: ");
                e.append(value.as_str());
                e
            },
            Object::Function { parameters, body, .. } => {
                let mut s = String::from_str("fn(");
                let params = join_printed(parameters, ", ");
                s.append(params.as_str());
                s.append(") {\n");
                let b = body.as_string();
                s.append(b.as_str());
                s.append("\n}");
                s
            },
            Object::Null => String::from_str("null"),
        }
    }

    /// Returns the proper name for an Object, as a string.
    pub fn name(&self) -> (r: String)
        ensures
            r@ == spec_obj_name(self.deep_view()),
    {
        match self {
            Object::Integer { .. } => String::from_str("INTEGER"),
            Object::Boolean { .. } => String::from_str("BOOLEAN"),
            Object::ReturnValue { .. } => String::from_str("RETURN_VALUE"),
            Object::Error { .. } => String::from_str("ERROR"),
            Object::Function { .. } => String::from_str("FUNCTION"),
            Object::Null => String::from_str("NULL"),
        }
    }
}

impl Clone for Object {
    /// Clones an object; the copy has the same model.
    fn clone(&self) -> (r: Object)
        ensures
            r.deep_view() == self.deep_view(),
        decreases *self,
    {
        match self {
            Object::Integer { value } => Object::Integer { value: *value },
            Object::Boolean { value } => Object::Boolean { value: *value },
            Object::ReturnValue { value } => Object::ReturnValue {
                value: Box::new((**value).clone()),
            },
            Object::Error { value } => Object::Error { value: value.clone() },
            Object::Function { parameters, body, env } => Object::Function {
                parameters: crate::ast::clone_nodes(parameters),
                body: Box::new((**body).clone()),
                env: *env,
            },
            Object::Null => Object::Null,
        }
    }
}

/// Whether two nodes have the same model.
pub fn node_eq(a: &Node, b: &Node) -> (r: bool)
    ensures
        r == (a.deep_view() == b.deep_view()),
    decreases *a,
{
    match (a, b) {
        (Node::Program { statements: s1 }, Node::Program { statements: s2 }) => nodes_eq(s1, s2),
        (Node::Identifier { value: v1 }, Node::Identifier { value: v2 }) => v1.t == v2.t && str_eq(
            v1.v.as_str(),
            v2.v.as_str(),
        ),
        (Node::IntegerLiteral { value: v1 }, Node::IntegerLiteral { value: v2 }) => v1 == v2,
        (Node::Boolean { value: v1 }, Node::Boolean { value: v2 }) => v1 == v2,
        (
            Node::FunctionLiteral { parameters: p1, body: b1 },
            Node::FunctionLiteral { parameters: p2, body: b2 },
        ) => nodes_eq(p1, p2) && node_eq(b1, b2),
        (
            Node::PrefixExpression { operator: o1, right: r1 },
            Node::PrefixExpression { operator: o2, right: r2 },
        ) => str_eq(o1.as_str(), o2.as_str()) && node_eq(r1, r2),
        (
            Node::InfixExpression { left: l1, operator: o1, right: r1 },
            Node::InfixExpression { left: l2, operator: o2, right: r2 },
        ) => node_eq(l1, l2) && str_eq(o1.as_str(), o2.as_str()) && node_eq(r1, r2),
        (
            Node::IfExpression { condition: c1, consequence: q1, alternative: a1 },
            Node::IfExpression { condition: c2, consequence: q2, alternative: a2 },
        ) => {
            let alt = match (a1, a2) {
                (Some(x1), Some(x2)) => node_eq(x1, x2),
                (None, None) => true,
                _ => false,
            };
            node_eq(c1, c2) && node_eq(q1, q2) && alt
        },
        (
            Node::CallExpression { function: f1, arguments: g1 },
            Node::CallExpression { function: f2, arguments: g2 },
        ) => node_eq(f1, f2) && nodes_eq(g1, g2),
        (
            Node::LetStatement { name: n1, value: v1 },
            Node::LetStatement { name: n2, value: v2 },
        ) => {
            let val = match (v1, v2) {
                (Some(x1), Some(x2)) => node_eq(x1, x2),
                (None, None) => true,
                _ => false,
            };
            node_eq(n1, n2) && val
        },
        (Node::ReturnStatement { value: v1 }, Node::ReturnStatement { value: v2 }) => match (
            v1,
            v2,
        ) {
            (Some(x1), Some(x2)) => node_eq(x1, x2),
            (None, None) => true,
            _ => false,
        },
        (
            Node::ExpressionStatement { expression: v1 },
            Node::ExpressionStatement { expression: v2 },
        ) => match (v1, v2) {
            (Some(x1), Some(x2)) => node_eq(x1, x2),
            (None, None) => true,
            _ => false,
        },
        (Node::BlockStatement { statements: s1 }, Node::BlockStatement { statements: s2 }) => {
            nodes_eq(s1, s2)
        },
        _ => false,
    }
}

/// Whether two node vectors have the same sequence model.
pub fn nodes_eq(a: &Vec<Node>, b: &Vec<Node>) -> (r: bool)
    ensures
        r == (Node::deep_view_seq(a@) == Node::deep_view_seq(b@)),
    decreases a@,
{
    proof {
        lemma_deep_view_seq_index(a@);
        lemma_deep_view_seq_index(b@);
    }
    if a.len() != b.len() {
        return false;
    }
    let mut i: usize = 0;
    while i < a.len()
        invariant
            a@.len() == b@.len(),
            i <= a@.len(),
            forall|j: int| 0 <= j < i ==> a@[j].deep_view() == b@[j].deep_view(),
            Node::deep_view_seq(a@).len() == a@.len(),
            Node::deep_view_seq(b@).len() == b@.len(),
            forall|j: int|
                0 <= j < a@.len() ==> #[trigger] Node::deep_view_seq(a@)[j] == a@[j].deep_view(),
            forall|j: int|
                0 <= j < b@.len() ==> #[trigger] Node::deep_view_seq(b@)[j] == b@[j].deep_view(),
        decreases a@.len() - i,
    {
        proof {
            assert(decreases_to!(a@ => a@[i as int]));
        }
        if !node_eq(&a[i], &b[i]) {
            assert(Node::deep_view_seq(a@)[i as int] != Node::deep_view_seq(b@)[i as int]);
            return false;
        }
        i += 1;
    }
    proof {
        assert(Node::deep_view_seq(a@) =~= Node::deep_view_seq(b@));
    }
    true
}

/// Whether two objects have the same model.
pub fn obj_eq(a: &Object, b: &Object) -> (r: bool)
    ensures
        r == (a.deep_view() == b.deep_view()),
    decreases *a,
{
    match (a, b) {
        (Object::Integer { value: v1 }, Object::Integer { value: v2 }) => v1 == v2,
        (Object::Boolean { value: v1 }, Object::Boolean { value: v2 }) => v1 == v2,
        (Object::ReturnValue { value: v1 }, Object::ReturnValue { value: v2 }) => obj_eq(v1, v2),
        (Object::Error { value: v1 }, Object::Error { value: v2 }) => str_eq(
            v1.as_str(),
            v2.as_str(),
        ),
        (
            Object::Function { parameters: p1, body: b1, env: e1 },
            Object::Function { parameters: p2, body: b2, env: e2 },
        ) => nodes_eq(p1, p2) && node_eq(b1, b2) && e1 == e2,
        (Object::Null, Object::Null) => true,
        _ => false,
    }
}

/// One scope of bindings, with the index of the scope it falls back
/// to.
#[derive(Debug, PartialEq, Eq)]
pub struct Frame {
    pub bindings: Vec<(String, Object)>,
    pub outer: Option<usize>,
}

/// The model of one scope: its bindings, newest last, and the index of
/// the scope it falls back to.
pub struct FrameV {
    pub bindings: Seq<(Seq<char>, ObjV)>,
    pub outer: Option<int>,
}

impl View for Frame {
    type V = FrameV;

    open spec fn view(&self) -> FrameV {
        FrameV {
            bindings: self.bindings@.map_values(|p: (String, Object)| (p.0@, p.1.deep_view())),
            outer: match self.outer {
                Some(o) => Some(o as int),
                None => None,
            },
        }
    }
}

/// The newest binding of a name in one scope's bindings.
pub open spec fn sp_frame_lookup(b: Seq<(Seq<char>, ObjV)>, name: Seq<char>) -> Option<ObjV>
    decreases b.len(),
{
    if b.len() == 0 {
        None
    } else if b.last().0 == name {
        Some(b.last().1)
    } else {
        sp_frame_lookup(b.drop_last(), name)
    }
}

/// The value of a name seen from a scope: its own newest binding, or
/// the nearest one found by following the fallback chain outward.
pub open spec fn sp_env_get(env: Seq<FrameV>, scope: int, name: Seq<char>) -> Option<ObjV>
    decreases (if scope >= 0 { scope } else { 0 }),
{
    if scope < 0 || scope >= env.len() {
        None
    } else {
        match sp_frame_lookup(env[scope].bindings, name) {
            Some(v) => Some(v),
            None => match env[scope].outer {
                Some(o) => if 0 <= o < scope {
                    sp_env_get(env, o, name)
                } else {
                    None
                },
                None => None,
            },
        }
    }
}

/// The environment after binding a name in one scope; a scope index
/// outside the environment changes nothing.
pub open spec fn sp_env_set(env: Seq<FrameV>, scope: int, name: Seq<char>, v: ObjV) -> Seq<
    FrameV,
> {
    if 0 <= scope < env.len() {
        env.update(
            scope,
            FrameV { bindings: env[scope].bindings.push((name, v)), outer: env[scope].outer },
        )
    } else {
        env
    }
}

/// The environment after opening a new scope that falls back to
/// `outer`; a fallback index outside the environment is dropped.
pub open spec fn sp_env_enclose(env: Seq<FrameV>, outer: int) -> Seq<FrameV> {
    env.push(
        FrameV {
            bindings: Seq::empty(),
            outer: if 0 <= outer < env.len() {
                Some(outer)
            } else {
                None
            },
        },
    )
}

/// The language environment, which keeps hold of variable bindings:
/// an arena of scopes, each falling back to an earlier one, so that a
/// scope can be shared by every function value that captured it.
#[derive(Debug, PartialEq, Eq)]
pub struct Environment {
    frames: Vec<Frame>,
}

impl Environment {
    /// The model of the environment: its scopes in order of creation.
    pub closed spec fn view(&self) -> Seq<FrameV> {
        self.frames@.map_values(|f: Frame| f@)
    }

    /// Creates a new, blank Environment holding one global scope.
    pub fn new() -> (r: Self)
        ensures
            r@ == seq![FrameV { bindings: Seq::<(Seq<char>, ObjV)>::empty(), outer: None }],
    {
        let mut frames: Vec<Frame> = Vec::new();
        frames.push(Frame { bindings: Vec::new(), outer: None });
        let r = Environment { frames };
        proof {
            assert(r.frames@.len() == 1);
            assert(r@[0].bindings =~= Seq::<(Seq<char>, ObjV)>::empty());
            assert(r@ =~= seq![
                FrameV { bindings: Seq::<(Seq<char>, ObjV)>::empty(), outer: None },
            ]);
        }
        r
    }

    /// Opens a new scope that falls back to the given one, and returns
    /// the new scope's index. This is how closures come about: a call
    /// evaluates its body in a fresh scope enclosing the scope the
    /// function captured.
    pub fn new_enclosed(&mut self, outer: usize) -> (scope: usize)
        ensures
            final(self)@ == sp_env_enclose(old(self)@, outer as int),
            scope as int == old(self)@.len(),
    {
        let scope = self.frames.len();
        let o = if outer < self.frames.len() {
            Some(outer)
        } else {
            None
        };
        self.frames.push(Frame { bindings: Vec::new(), outer: o });
        proof {
            assert(self.frames@.len() == old(self).frames@.len() + 1);
            assert(self@[scope as int].bindings =~= Seq::<(Seq<char>, ObjV)>::empty());
            assert(self@ =~= sp_env_enclose(old(self)@, outer as int));
        }
        scope
    }

    /// Fetches the value of a name seen from a scope, walking the
    /// fallback chain outward.
    pub fn get(&self, scope: usize, k: &str) -> (r: Option<Object>)
        ensures
            match sp_env_get(self@, scope as int, k@) {
                Some(v) => r matches Some(o) && o.deep_view() == v,
                None => r is None,
            },
    {
        let mut s = scope;
        loop
            invariant
                sp_env_get(self@, scope as int, k@) == sp_env_get(self@, s as int, k@),
            decreases s,
        {
            if s >= self.frames.len() {
                return None;
            }
            let frame = &self.frames[s];
            let ghost bv = frame@.bindings;
            proof {
                assert(self@[s as int] == frame@);
            }
            let mut i = frame.bindings.len();
            proof {
                assert(bv.take(i as int) =~= bv);
            }
            let mut found = false;
            while i > 0 && !found
                invariant
                    i <= frame.bindings@.len(),
                    bv == frame@.bindings,
                    bv.len() == frame.bindings@.len(),
                    forall|j: int|
                        0 <= j < bv.len() ==> #[trigger] bv[j] == (
                        frame.bindings@[j].0@,
                        frame.bindings@[j].1.deep_view(),
                        ),
                    !found ==> sp_frame_lookup(bv, k@) == sp_frame_lookup(bv.take(i as int), k@),
                    found ==> i < bv.len() && sp_frame_lookup(bv, k@) == Some(bv[i as int].1),
                decreases i,
            {
                proof {
                    assert(bv.take(i as int).drop_last() =~= bv.take(i - 1));
                    assert(bv.take(i as int).last() == bv[i - 1]);
                }
                i = i - 1;
                if str_eq(frame.bindings[i].0.as_str(), k) {
                    found = true;
                } else {
                }
            }
            if found {
                return Some(frame.bindings[i].1.clone());
            }
            proof {
                assert(bv.take(0) =~= Seq::<(Seq<char>, ObjV)>::empty());
            }
            match frame.outer {
                Some(o) => {
                    if o < s {
                        s = o;
                    } else {
                        return None;
                    }
                },
                None => {
                    return None;
                },
            }
        }
    }

    /// Inserts a binding for a name into the given scope's own
    /// storage, shadowing without touching any outer scope, and
    /// returns the value it replaces there, if any.
    pub fn set(&mut self, scope: usize, k: String, v: Object) -> (r: Option<Object>)
        ensures
            final(self)@ == sp_env_set(old(self)@, scope as int, k@, v.deep_view()),
            match sp_frame_lookup(
                if scope < old(self)@.len() {
                    old(self)@[scope as int].bindings
                } else {
                    Seq::empty()
                },
                k@,
            ) {
                Some(o) => r matches Some(p) && p.deep_view() == o,
                None => r is None,
            },
    {
        let ghost kv = k@;
        let ghost vv = v.deep_view();
        if scope >= self.frames.len() {
            return None;
        }
        let prev = self.get_local(scope, k.as_str());
        let frame = &mut self.frames[scope];
        frame.bindings.push((k, v));
        proof {
            assert(self@[scope as int].bindings =~= old(self)@[scope as int].bindings.push(
                (kv, vv),
            ));
            assert(self@ =~= sp_env_set(old(self)@, scope as int, kv, vv));
        }
        prev
    }

    /// Fetches the newest binding of a name in one scope's own
    /// storage, without following the fallback chain.
    fn get_local(&self, scope: usize, k: &str) -> (r: Option<Object>)
        requires
            scope < self.frames@.len(),
        ensures
            match sp_frame_lookup(self@[scope as int].bindings, k@) {
                Some(v) => r matches Some(o) && o.deep_view() == v,
                None => r is None,
            },
    {
        let frame = &self.frames[scope];
        let ghost bv = frame@.bindings;
        proof {
            assert(self@[scope as int] == frame@);
        }
        let mut i = frame.bindings.len();
        proof {
            assert(bv.take(i as int) =~= bv);
        }
        while i > 0
            invariant
                scope < self.frames@.len(),
                self@[scope as int].bindings == bv,
                i <= frame.bindings@.len(),
                bv == frame@.bindings,
                bv.len() == frame.bindings@.len(),
                forall|j: int|
                    0 <= j < bv.len() ==> #[trigger] bv[j] == (
                    frame.bindings@[j].0@,
                    frame.bindings@[j].1.deep_view(),
                    ),
                sp_frame_lookup(bv, k@) == sp_frame_lookup(bv.take(i as int), k@),
            decreases i,
        {
            proof {
                assert(bv.take(i as int).drop_last() =~= bv.take(i - 1));
                assert(bv.take(i as int).last() == bv[i - 1]);
            }
            i = i - 1;
            if str_eq(frame.bindings[i].0.as_str(), k) {
                proof {
                    let ghost pair = frame.bindings@[i as int];
                    assert(bv[i as int] == (pair.0@, pair.1.deep_view()));
                    assert(sp_frame_lookup(bv.take(i + 1), k@) == Some(bv[i as int].1));
                    assert(sp_frame_lookup(self@[scope as int].bindings, k@) == Some(
                        bv[i as int].1,
                    ));
                }
                return Some(frame.bindings[i].1.clone());
            }
        }
        proof {
            assert(bv.take(0) =~= Seq::<(Seq<char>, ObjV)>::empty());
        }
        None
    }
}

} // verus!
