use crate::tokens::{Token, TokenV};
use vstd::prelude::*;

verus! {

/// All types of AST nodes.
#[derive(Debug, PartialEq, Eq)]
pub enum Node {
    Program { statements: Vec<Node> },
    Identifier { value: Token },
    IntegerLiteral { value: i64 },
    Boolean { value: bool },
    FunctionLiteral { parameters: Vec<Node>, body: Box<Node> },
    PrefixExpression { operator: String, right: Box<Node> },
    InfixExpression { left: Box<Node>, operator: String, right: Box<Node> },
    IfExpression { condition: Box<Node>, consequence: Box<Node>, alternative: Option<Box<Node>> },
    CallExpression { function: Box<Node>, arguments: Vec<Node> },
    LetStatement { name: Box<Node>, value: Option<Box<Node>> },
    ReturnStatement { value: Option<Box<Node>> },
    ExpressionStatement { expression: Option<Box<Node>> },
    BlockStatement { statements: Vec<Node> },
}

/// The mathematical model of an AST node, with sequences in place of
/// vectors and character sequences in place of strings.
pub enum NodeV {
    Program { statements: Seq<NodeV> },
    Identifier { value: TokenV },
    IntegerLiteral { value: i64 },
    Boolean { value: bool },
    FunctionLiteral { parameters: Seq<NodeV>, body: Box<NodeV> },
    PrefixExpression { operator: Seq<char>, right: Box<NodeV> },
    InfixExpression { left: Box<NodeV>, operator: Seq<char>, right: Box<NodeV> },
    IfExpression {
        condition: Box<NodeV>,
        consequence: Box<NodeV>,
        alternative: Option<Box<NodeV>>,
    },
    CallExpression { function: Box<NodeV>, arguments: Seq<NodeV> },
    LetStatement { name: Box<NodeV>, value: Option<Box<NodeV>> },
    ReturnStatement { value: Option<Box<NodeV>> },
    ExpressionStatement { expression: Option<Box<NodeV>> },
    BlockStatement { statements: Seq<NodeV> },
}

impl Node {
    /// The model of this node.
    pub open spec fn deep_view(self) -> NodeV
        decreases self,
    {
        match self {
            Node::Program { statements } => NodeV::Program {
                statements: Node::deep_view_seq(statements@),
            },
            Node::Identifier { value } => NodeV::Identifier { value: value@ },
            Node::IntegerLiteral { value } => NodeV::IntegerLiteral { value },
            Node::Boolean { value } => NodeV::Boolean { value },
            Node::FunctionLiteral { parameters, body } => NodeV::FunctionLiteral {
                parameters: Node::deep_view_seq(parameters@),
                body: Box::new((*body).deep_view()),
            },
            Node::PrefixExpression { operator, right } => NodeV::PrefixExpression {
                operator: operator@,
                right: Box::new((*right).deep_view()),
            },
            Node::InfixExpression { left, operator, right } => NodeV::InfixExpression {
                left: Box::new((*left).deep_view()),
                operator: operator@,
                right: Box::new((*right).deep_view()),
            },
            Node::IfExpression { condition, consequence, alternative } => NodeV::IfExpression {
                condition: Box::new((*condition).deep_view()),
                consequence: Box::new((*consequence).deep_view()),
                alternative: match alternative {
                    Some(a) => Some(Box::new((*a).deep_view())),
                    None => None,
                },
            },
            Node::CallExpression { function, arguments } => NodeV::CallExpression {
                function: Box::new((*function).deep_view()),
                arguments: Node::deep_view_seq(arguments@),
            },
            Node::LetStatement { name, value } => NodeV::LetStatement {
                name: Box::new((*name).deep_view()),
                value: match value {
                    Some(v) => Some(Box::new((*v).deep_view())),
                    None => None,
                },
            },
            Node::ReturnStatement { value } => NodeV::ReturnStatement {
                value: match value {
                    Some(v) => Some(Box::new((*v).deep_view())),
                    None => None,
                },
            },
            Node::ExpressionStatement { expression } => NodeV::ExpressionStatement {
                expression: match expression {
                    Some(v) => Some(Box::new((*v).deep_view())),
                    None => None,
                },
            },
            Node::BlockStatement { statements } => NodeV::BlockStatement {
                statements: Node::deep_view_seq(statements@),
            },
        }
    }

    /// The model of a sequence of nodes, element by element.
    pub open spec fn deep_view_seq(s: Seq<Node>) -> Seq<NodeV>
        decreases s,
    {
        if s.len() == 0 {
            Seq::empty()
        } else {
            seq![s[0].deep_view()] + Node::deep_view_seq(s.subrange(1, s.len() as int))
        }
    }
}

/// The length and elements of the model of a node sequence.
pub proof fn lemma_deep_view_seq_index(s: Seq<Node>)
    ensures
        Node::deep_view_seq(s).len() == s.len(),
        forall|i: int| 0 <= i < s.len() ==> Node::deep_view_seq(s)[i] == s[i].deep_view(),
    decreases s.len(),
{
    if s.len() > 0 {
        lemma_deep_view_seq_index(s.subrange(1, s.len() as int));
    }
}

/// Two node vectors with equal element models have equal sequence models.
pub proof fn lemma_deep_view_seq_ext(a: Seq<Node>, b: Seq<Node>)
    requires
        a.len() == b.len(),
        forall|i: int| 0 <= i < a.len() ==> a[i].deep_view() == b[i].deep_view(),
    ensures
        Node::deep_view_seq(a) == Node::deep_view_seq(b),
{
    lemma_deep_view_seq_index(a);
    lemma_deep_view_seq_index(b);
    assert(Node::deep_view_seq(a) =~= Node::deep_view_seq(b));
}

/// The model of a node vector grows element by element.
pub proof fn lemma_deep_view_seq_push(s: Seq<Node>, x: Node)
    ensures
        Node::deep_view_seq(s.push(x)) == Node::deep_view_seq(s).push(x.deep_view()),
{
    lemma_deep_view_seq_index(s.push(x));
    lemma_deep_view_seq_index(s);
    assert(Node::deep_view_seq(s.push(x)) =~= Node::deep_view_seq(s).push(x.deep_view()));
}

/// The decimal digit character for a value below ten.
pub open spec fn spec_digit_char(d: int) -> char {
    if d == 0 {
        '0'
    } else if d == 1 {
        '1'
    } else if d == 2 {
        '2'
    } else if d == 3 {
        '3'
    } else if d == 4 {
        '4'
    } else if d == 5 {
        '5'
    } else if d == 6 {
        '6'
    } else if d == 7 {
        '7'
    } else if d == 8 {
        '8'
    } else {
        '9'
    }
}

/// The decimal rendering of a nonnegative integer.
pub open spec fn spec_nat_chars(n: int) -> Seq<char>
    decreases n,
{
    if n < 10 {
        seq![spec_digit_char(n)]
    } else {
        spec_nat_chars(n / 10) + seq![spec_digit_char(n % 10)]
    }
}

/// The decimal rendering of a signed integer.
pub open spec fn spec_i64_chars(v: i64) -> Seq<char> {
    if v < 0 {
        seq!['-'] + spec_nat_chars(-(v as int))
    } else {
        spec_nat_chars(v as int)
    }
}

/// The rendering of a boolean.
pub open spec fn spec_bool_chars(b: bool) -> Seq<char> {
    if b {
        "true"@
    } else {
        "false"@
    }
}

/// The string reconstruction of an AST node: every prefix and binary
/// operation is rendered fully parenthesized, statements end with a
/// semicolon, and statement lists are concatenated in order.
pub open spec fn spec_print(n: NodeV) -> Seq<char>
    decreases n,
{
    match n {
        NodeV::Program { statements } => spec_print_list(statements, Seq::empty()),
        NodeV::Identifier { value } => value.v,
        NodeV::IntegerLiteral { value } => spec_i64_chars(value),
        NodeV::Boolean { value } => spec_bool_chars(value),
        NodeV::FunctionLiteral { parameters, body } => "fn("@ + spec_print_list(
            parameters,
            ", "@,
        ) + ") "@ + spec_print(*body),
        NodeV::PrefixExpression { operator, right } => "("@ + operator + spec_print(*right)
            + ")"@,
        NodeV::InfixExpression { left, operator, right } => "("@ + spec_print(*left) + " "@
            + operator + " "@ + spec_print(*right) + ")"@,
        NodeV::IfExpression { condition, consequence, alternative } => {
            let head = "if "@ + spec_print(*condition) + " "@ + spec_print(*consequence);
            match alternative {
                Some(a) => head + "else "@ + spec_print(*a),
                None => head,
            }
        },
        NodeV::CallExpression { function, arguments } => spec_print(*function) + "("@
            + spec_print_list(arguments, ", "@) + ")"@,
        NodeV::LetStatement { name, value } => {
            let head = "let "@ + spec_print(*name);
            let with_value = match value {
                Some(v) => head + " = "@ + spec_print(*v),
                None => head,
            };
            with_value + ";"@
        },
        NodeV::ReturnStatement { value } => {
            let head = match value {
                Some(v) => "return"@ + " "@ + spec_print(*v),
                None => "return"@,
            };
            head + ";"@
        },
        NodeV::ExpressionStatement { expression } => {
            let head = match expression {
                Some(v) => spec_print(*v),
                None => Seq::empty(),
            };
            head + ";"@
        },
        NodeV::BlockStatement { statements } => spec_print_list(statements, Seq::empty()),
    }
}

/// The string reconstructions of a list of nodes, joined by a separator.
pub open spec fn spec_print_list(s: Seq<NodeV>, sep: Seq<char>) -> Seq<char>
    decreases s,
{
    if s.len() == 0 {
        Seq::empty()
    } else if s.len() == 1 {
        spec_print(s[0])
    } else {
        spec_print(s[0]) + sep + spec_print_list(s.subrange(1, s.len() as int), sep)
    }
}

/// Appending one node to a printed list appends one separator (when the
/// list was nonempty) and the node's own reconstruction.
pub proof fn lemma_print_list_snoc(s: Seq<NodeV>, x: NodeV, sep: Seq<char>)
    ensures
        spec_print_list(s.push(x), sep) == if s.len() == 0 {
            spec_print(x)
        } else {
            spec_print_list(s, sep) + sep + spec_print(x)
        },
    decreases s.len(),
{
    let p = s.push(x);
    if s.len() == 0 {
        assert(p.len() == 1);
        assert(p[0] == x);
    } else {
        assert(p[0] == s[0]);
        assert(p.subrange(1, p.len() as int) =~= s.subrange(1, s.len() as int).push(x));
        lemma_print_list_snoc(s.subrange(1, s.len() as int), x, sep);
        if s.len() == 1 {
            assert(spec_print_list(p, sep) == spec_print(s[0]) + sep + spec_print(x));
            assert(spec_print_list(s, sep) == spec_print(s[0]));
        } else {
            assert(spec_print_list(p, sep) == spec_print(p[0]) + sep + (spec_print_list(
                s.subrange(1, s.len() as int),
                sep,
            ) + sep + spec_print(x)));
            assert(spec_print_list(s, sep) + sep + spec_print(x) == (spec_print(s[0]) + sep
                + spec_print_list(s.subrange(1, s.len() as int), sep)) + sep + spec_print(x));
            assert(spec_print(p[0]) + sep + (spec_print_list(s.subrange(1, s.len() as int), sep)
                + sep + spec_print(x)) =~= (spec_print(s[0]) + sep + spec_print_list(
                s.subrange(1, s.len() as int),
                sep,
            )) + sep + spec_print(x));
        }
    }
}

/// Law: the string reconstruction fully parenthesizes every binary and
/// prefix operation, whatever the operands and operator: the grouping
/// chosen by precedence climbing is always written out explicitly.
pub proof fn lemma_print_parenthesizes(l: NodeV, op: Seq<char>, r: NodeV)
    ensures
        spec_print(
            NodeV::InfixExpression { left: Box::new(l), operator: op, right: Box::new(r) },
        ) == "("@ + spec_print(l) + " "@ + op + " "@ + spec_print(r) + ")"@,
        spec_print(NodeV::PrefixExpression { operator: op, right: Box::new(r) }) == "("@ + op
            + spec_print(r) + ")"@,
{
}

/// The token literal of an AST node: the leading token's text, or a
/// fixed marker for composite forms.
pub open spec fn spec_token_literal(n: NodeV) -> Seq<char>
    decreases n,
{
    match n {
        NodeV::Program { .. } => "program"@,
        NodeV::Identifier { value } => value.v,
        NodeV::IntegerLiteral { value } => spec_i64_chars(value),
        NodeV::Boolean { value } => spec_bool_chars(value),
        NodeV::FunctionLiteral { .. } => "fn"@,
        NodeV::PrefixExpression { operator, .. } => operator,
        NodeV::InfixExpression { operator, .. } => operator,
        NodeV::IfExpression { .. } => "if"@,
        NodeV::CallExpression { function, .. } => spec_print(*function),
        NodeV::LetStatement { .. } => "let"@,
        NodeV::ReturnStatement { .. } => "return"@,
        NodeV::ExpressionStatement { expression } => match expression {
            Some(e) => spec_token_literal(*e),
            None => Seq::empty(),
        },
        NodeV::BlockStatement { .. } => "{"@,
    }
}

/// The decimal digit character for a value below ten.
pub fn digit_char(d: u64) -> (c: char)
    requires
        d < 10,
    ensures
        c == spec_digit_char(d as int),
{
    if d == 0 {
        '0'
    } else if d == 1 {
        '1'
    } else if d == 2 {
        '2'
    } else if d == 3 {
        '3'
    } else if d == 4 {
        '4'
    } else if d == 5 {
        '5'
    } else if d == 6 {
        '6'
    } else if d == 7 {
        '7'
    } else if d == 8 {
        '8'
    } else {
        '9'
    }
}

/// Relies on String::push: appends exactly one character to the string.
#[verifier::external_body]
pub(crate) fn push_char(s: &mut String, c: char)
    ensures
        final(s)@ == old(s)@.push(c),
{
    s.push(c);
}

/// Renders a nonnegative integer in decimal.
pub fn u64_to_string(n: u64) -> (r: String)
    ensures
        r@ == spec_nat_chars(n as int),
    decreases n,
{
    if n < 10 {
        let mut s = String::new();
        push_char(&mut s, digit_char(n));
        proof {
            assert(s@ =~= spec_nat_chars(n as int));
        }
        s
    } else {
        let mut s = u64_to_string(n / 10);
        push_char(&mut s, digit_char(n % 10));
        proof {
            assert(s@ =~= spec_nat_chars((n / 10) as int) + seq![
                spec_digit_char((n % 10) as int),
            ]);
        }
        s
    }
}

/// Renders a signed integer in decimal.
pub fn i64_to_string(v: i64) -> (r: String)
    ensures
        r@ == spec_i64_chars(v),
{
    if v >= 0 {
        u64_to_string(v as u64)
    } else {
        let mag: u64 = (-(v + 1)) as u64 + 1;
        assert(mag as int == -(v as int));
        let mut s = String::new();
        push_char(&mut s, '-');
        let digits = u64_to_string(mag);
        s.append(digits.as_str());
        proof {
            assert(s@ =~= seq!['-'] + spec_nat_chars(-(v as int)));
        }
        s
    }
}

/// Renders a boolean as its keyword spelling.
pub fn bool_to_string(b: bool) -> (r: String)
    ensures
        r@ == spec_bool_chars(b),
{
    if b {
        String::from_str("true")
    } else {
        String::from_str("false")
    }
}

impl Clone for Node {
    /// Clones a node; the copy has the same model.
    fn clone(&self) -> (r: Node)
        ensures
            r.deep_view() == self.deep_view(),
        decreases *self,
    {
        match self {
            Node::Program { statements } => Node::Program { statements: clone_nodes(statements) },
            Node::Identifier { value } => Node::Identifier { value: value.clone() },
            Node::IntegerLiteral { value } => Node::IntegerLiteral { value: *value },
            Node::Boolean { value } => Node::Boolean { value: *value },
            Node::FunctionLiteral { parameters, body } => Node::FunctionLiteral {
                parameters: clone_nodes(parameters),
                body: Box::new((**body).clone()),
            },
            Node::PrefixExpression { operator, right } => Node::PrefixExpression {
                operator: operator.clone(),
                right: Box::new((**right).clone()),
            },
            Node::InfixExpression { left, operator, right } => Node::InfixExpression {
                left: Box::new((**left).clone()),
                operator: operator.clone(),
                right: Box::new((**right).clone()),
            },
            Node::IfExpression { condition, consequence, alternative } => Node::IfExpression {
                condition: Box::new((**condition).clone()),
                consequence: Box::new((**consequence).clone()),
                alternative: match alternative {
                    Some(a) => Some(Box::new((**a).clone())),
                    None => None,
                },
            },
            Node::CallExpression { function, arguments } => Node::CallExpression {
                function: Box::new((**function).clone()),
                arguments: clone_nodes(arguments),
            },
            Node::LetStatement { name, value } => Node::LetStatement {
                name: Box::new((**name).clone()),
                value: match value {
                    Some(v) => Some(Box::new((**v).clone())),
                    None => None,
                },
            },
            Node::ReturnStatement { value } => Node::ReturnStatement {
                value: match value {
                    Some(v) => Some(Box::new((**v).clone())),
                    None => None,
                },
            },
            Node::ExpressionStatement { expression } => Node::ExpressionStatement {
                expression: match expression {
                    Some(v) => Some(Box::new((**v).clone())),
                    None => None,
                },
            },
            Node::BlockStatement { statements } => Node::BlockStatement {
                statements: clone_nodes(statements),
            },
        }
    }
}

/// Clones a vector of nodes; the copy has the same sequence model.
pub(crate) fn clone_nodes(items: &Vec<Node>) -> (r: Vec<Node>)
    ensures
        Node::deep_view_seq(r@) == Node::deep_view_seq(items@),
    decreases items@,
{
    let mut r: Vec<Node> = Vec::new();
    let mut i: usize = 0;
    while i < items.len()
        invariant
            i <= items.len(),
            r@.len() == i,
            forall|j: int| 0 <= j < i ==> r@[j].deep_view() == items@[j].deep_view(),
        decreases items@.len() - i,
    {
        proof {
            assert(decreases_to!(items@ => items@[i as int]));
        }
        let c = (&items[i]).clone();
        r.push(c);
        i += 1;
    }
    proof {
        lemma_deep_view_seq_ext(r@, items@);
    }
    r
}

impl Node {
    /// Returns the token literal for an AST node.
    pub fn token_literal(&self) -> (r: String)
        ensures
            r@ == spec_token_literal(self.deep_view()),
        decreases *self,
    {
        match self {
            Node::Program { .. } => String::from_str("program"),
            Node::Identifier { value } => value.v.clone(),
            Node::IntegerLiteral { value } => i64_to_string(*value),
            Node::Boolean { value } => bool_to_string(*value),
            Node::FunctionLiteral { .. } => String::from_str("fn"),
            Node::PrefixExpression { operator, .. } => operator.clone(),
            Node::InfixExpression { operator, .. } => operator.clone(),
            Node::IfExpression { .. } => String::from_str("if"),
            Node::CallExpression { function, .. } => function.as_string(),
            Node::LetStatement { .. } => String::from_str("let"),
            Node::ReturnStatement { .. } => String::from_str("return"),
            Node::ExpressionStatement { expression } => match expression {
                Some(expr) => expr.token_literal(),
                None => String::new(),
            },
            Node::BlockStatement { .. } => String::from_str("{"),
        }
    }

    /// Returns the string representation of an AST node.
    pub fn as_string(&self) -> (r: String)
        ensures
            r@ == spec_print(self.deep_view()),
        decreases *self,
    {
        match self {
            Node::Program { statements } => {
                let r = join_printed(statements, "");
                proof {
                    reveal_strlit("");
                    assert(""@ =~= Seq::<char>::empty());
                }
                r
            },
            Node::Identifier { value } => value.v.clone(),
            Node::IntegerLiteral { value } => i64_to_string(*value),
            Node::Boolean { value } => bool_to_string(*value),
            Node::FunctionLiteral { parameters, body } => {
                let mut s = String::from_str("fn(");
                let params = join_printed(parameters, ", ");
                s.append(params.as_str());
                s.append(") ");
                let b = body.as_string();
                s.append(b.as_str());
                s
            },
            Node::PrefixExpression { operator, right } => {
                let mut s = String::from_str("(");
                s.append(operator.as_str());
                let b = right.as_string();
                s.append(b.as_str());
                s.append(")");
                s
            },
            Node::InfixExpression { left, operator, right } => {
                let mut s = String::from_str("(");
                let l = left.as_string();
                s.append(l.as_str());
                s.append(" ");
                s.append(operator.as_str());
                s.append(" ");
                let b = right.as_string();
                s.append(b.as_str());
                s.append(")");
                s
            },
            Node::IfExpression { condition, consequence, alternative } => {
                let mut s = String::from_str("if ");
                let c = condition.as_string();
                s.append(c.as_str());
                s.append(" ");
                let q = consequence.as_string();
                s.append(q.as_str());
                match alternative {
                    Some(a) => {
                        s.append("else ");
                        let alt = a.as_string();
                        s.append(alt.as_str());
                    },
                    None => {},
                }
                s
            },
            Node::CallExpression { function, arguments } => {
                let mut s = function.as_string();
                s.append("(");
                let args = join_printed(arguments, ", ");
                s.append(args.as_str());
                s.append(")");
                s
            },
            Node::LetStatement { name, value } => {
                let mut s = String::from_str("let ");
                let n = name.as_string();
                s.append(n.as_str());
                match value {
                    Some(v) => {
                        s.append(" = ");
                        let b = v.as_string();
                        s.append(b.as_str());
                    },
                    None => {},
                }
                s.append(";");
                s
            },
            Node::ReturnStatement { value } => {
                let mut s = String::from_str("return");
                match value {
                    Some(v) => {
                        s.append(" ");
                        let b = v.as_string();
                        s.append(b.as_str());
                    },
                    None => {},
                }
                s.append(";");
                s
            },
            Node::ExpressionStatement { expression } => {
                let mut s = match expression {
                    Some(v) => v.as_string(),
                    None => String::new(),
                };
                s.append(";");
                s
            },
            Node::BlockStatement { statements } => {
                let r = join_printed(statements, "");
                proof {
                    reveal_strlit("");
                    assert(""@ =~= Seq::<char>::empty());
                }
                r
            },
        }
    }
}

/// Renders each node of a list and joins the results with a separator.
pub(crate) fn join_printed(items: &Vec<Node>, sep: &str) -> (r: String)
    ensures
        r@ == spec_print_list(Node::deep_view_seq(items@), sep@),
    decreases items@,
{
    let ghost v = Node::deep_view_seq(items@);
    proof {
        lemma_deep_view_seq_index(items@);
    }
    let mut acc = String::new();
    let mut i: usize = 0;
    while i < items.len()
        invariant
            i <= items.len(),
            v == Node::deep_view_seq(items@),
            v.len() == items@.len(),
            forall|j: int| 0 <= j < items@.len() ==> v[j] == items@[j].deep_view(),
            acc@ == spec_print_list(v.take(i as int), sep@),
        decreases items@.len() - i,
    {
        if i > 0 {
            acc.append(sep);
        }
        proof {
            assert(decreases_to!(items@ => items@[i as int]));
        }
        let p = (&items[i]).as_string();
        acc.append(p.as_str());
        proof {
            lemma_print_list_snoc(v.take(i as int), v[i as int], sep@);
            assert(v.take(i as int).push(v[i as int]) =~= v.take(i as int + 1));
        }
        i += 1;
    }
    proof {
        assert(v.take(items@.len() as int) =~= v);
    }
    acc
}

} // verus!
