//! Syntax tree for the checked language.
//!
//! The tree is stored as an arena: every node (expression or statement)
//! lives in one `Vec` and refers to its children by index. A well-formed
//! tree has every child index strictly below its parent's, so recursive
//! walks terminate, and each node's index doubles as the stable identity
//! under which scopes, captures and computed types are recorded.

use vstd::prelude::*;

verus! {

/// A source position: line and column of a token.
#[derive(Clone, Copy, Debug, PartialEq, Eq, Structural, Hash)]
pub struct Index(pub usize, pub usize);

/// The lexical kind of a token. Only the kinds that the resolver or the
/// type checker inspects are listed; everything else in the surface
/// syntax is represented by the node that the parser built from it.
#[derive(Clone, Copy, Debug, PartialEq, Eq, Structural, Hash)]
pub enum TokenKind {
    BeginBlock,
    Arrow,
    Name,
    NumberLiteral,
    FloatLiteral,
    StringLiteral,
    BoolLiteral,
    Plus,
    Minus,
    Star,
    Slash,
    Power,
    Mod,
    CompareEquals,
    CompareNotEquals,
    CompareGreater,
    CompareGreaterEqual,
    CompareLess,
    CompareLessEqual,
    And,
    Or,
    Not,
    Var,
    Def,
    Assert,
    Pass,
}

/// A lexical token: kind, position and (for names and literals) its text.
#[derive(Clone, Debug)]
pub struct Token {
    pub kind: TokenKind,
    pub position: Index,
    pub text: String,
}

/// Mathematical image of a `Token`.
pub struct TokenView {
    pub kind: TokenKind,
    pub position: Index,
    pub text: Seq<char>,
}

impl View for Token {
    type V = TokenView;

    open spec fn view(&self) -> TokenView {
        TokenView { kind: self.kind, position: self.position, text: self.text@ }
    }
}

impl Token {
    /// Builds a token; tests and drivers use this to assemble programs.
    pub fn new(kind: TokenKind, line: usize, column: usize, text: String) -> (t: Token)
        ensures
            t@ == (TokenView { kind, position: Index(line, column), text: text@ }),
    {
        Token { kind, position: Index(line, column), text }
    }
}

/// A type annotation as written in the source: either a plain type name
/// or a function type with argument, vararg and return annotations.
#[derive(Debug)]
pub enum TypeMention {
    Simple(Token),
    Function {
        position: Index,
        arguments: Vec<TypeMention>,
        vararg: Option<Box<TypeMention>>,
        ret: Box<TypeMention>,
    },
}

/// Mathematical image of a `TypeMention`.
pub enum MentionView {
    Simple(TokenView),
    Function {
        position: Index,
        arguments: Seq<MentionView>,
        vararg: Option<Box<MentionView>>,
        ret: Box<MentionView>,
    },
}

pub open spec fn mention_view(m: TypeMention) -> MentionView
    decreases m,
{
    match m {
        TypeMention::Simple(t) => MentionView::Simple(t@),
        TypeMention::Function { position, arguments, vararg, ret } => MentionView::Function {
            position,
            arguments: mention_seq_view(arguments@),
            vararg: match vararg {
                Option::Some(b) => Option::Some(Box::new(mention_view(*b))),
                Option::None => Option::None,
            },
            ret: Box::new(mention_view(*ret)),
        },
    }
}

pub open spec fn mention_seq_view(s: Seq<TypeMention>) -> Seq<MentionView>
    decreases s,
{
    if s.len() == 0 {
        Seq::empty()
    } else {
        mention_seq_view(s.drop_last()).push(mention_view(s.last()))
    }
}

impl View for TypeMention {
    type V = MentionView;

    open spec fn view(&self) -> MentionView {
        mention_view(*self)
    }
}

impl TypeMention {
    /// The source position a type error about this mention is reported at.
    pub open spec fn spec_pos(self) -> Index {
        match self {
            TypeMention::Simple(t) => t.position,
            TypeMention::Function { position, .. } => position,
        }
    }

    pub fn get_pos(&self) -> (p: Index)
        ensures
            p == self.spec_pos(),
    {
        match self {
            TypeMention::Simple(t) => t.position,
            TypeMention::Function { position, .. } => *position,
        }
    }
}

/// A declared name together with its optional type annotation
/// (a `var` name, a parameter, or a vararg parameter).
#[derive(Debug)]
pub struct TypedName {
    pub name: Token,
    pub annotation: Option<TypeMention>,
}

/// Identity of a declaration site. `node` is the arena index of the
/// declaring statement or expression; `slot` says which name declared
/// there is meant: 0 for the name the node itself declares (a `var`
/// name or a function's own name), `1 + i` for parameter `i`, and
/// `1 + arity` for the vararg parameter.
#[derive(Clone, Copy, Debug, PartialEq, Eq, Structural, Hash)]
pub struct DefKey {
    pub node: usize,
    pub slot: usize,
}

/// What a computed type can be recorded for: an expression node,
/// a statement node, or a declaration site.
#[derive(Clone, Copy, Debug, PartialEq, Eq, Structural, Hash)]
pub enum Typable {
    Expr(usize),
    Stmt(usize),
    Definition(DefKey),
}

/// One node of the syntax tree. Child references are arena indices.
#[derive(Debug)]
pub enum AstNode {
    // ----- expressions -----
    NumberLiteral(Token),
    FloatLiteral(Token),
    BoolLiteral(Token),
    StringLiteral(Token),
    /// A use of a variable.
    Name(Token),
    Binary { op: Token, left: usize, right: usize },
    Unary { op: Token, operand: usize },
    Cond { condition: usize, then_branch: usize, else_branch: Option<usize> },
    /// A block expression; its value is the value of its last statement.
    Block { start: Token, statements: Vec<usize> },
    SingleStatement(usize),
    Call { target: usize, arguments: Vec<usize> },
    PartialCall { target: usize, arguments: Vec<Option<usize>> },
    AnonFunction {
        arguments: Vec<TypedName>,
        vararg: Option<TypedName>,
        arrow: Token,
        body: usize,
    },
    PropertyAccess { target: usize, property: Token },
    PropertyCheck { target: usize, property: Token },
    // ----- statements -----
    VarDeclaration { name: TypedName, value: Option<usize> },
    Assignment { target: Token, value: usize },
    Expression(usize),
    Assert { keyword: Token, value: usize },
    Pass { keyword: Token },
    FunctionDeclaration {
        name: Token,
        arguments: Vec<TypedName>,
        vararg: Option<TypedName>,
        ret: Option<TypeMention>,
        body: usize,
    },
    StructDeclaration { name: Token, fields: Vec<TypedName> },
    EnumDeclaration { name: Token, variants: Vec<Token> },
    PropertyAssignment { target: usize, value: usize },
    ImplBlock { name: Token, implementations: Vec<usize> },
    Import { module: Vec<Token>, name: Token, rename: Option<Token> },
}

impl AstNode {
    /// Whether this node is an expression (as opposed to a statement).
    pub open spec fn is_expr(self) -> bool {
        match self {
            AstNode::NumberLiteral(..) => true,
            AstNode::FloatLiteral(..) => true,
            AstNode::BoolLiteral(..) => true,
            AstNode::StringLiteral(..) => true,
            AstNode::Name(..) => true,
            AstNode::Binary { .. } => true,
            AstNode::Unary { .. } => true,
            AstNode::Cond { .. } => true,
            AstNode::Block { .. } => true,
            AstNode::SingleStatement(..) => true,
            AstNode::Call { .. } => true,
            AstNode::PartialCall { .. } => true,
            AstNode::AnonFunction { .. } => true,
            AstNode::PropertyAccess { .. } => true,
            AstNode::PropertyCheck { .. } => true,
            _ => false,
        }
    }

    pub open spec fn is_stmt(self) -> bool {
        !self.is_expr()
    }
}

/// Well-formedness of the node at index `i`: every child index is
/// strictly smaller than `i`, expression slots hold expression nodes,
/// statement slots hold statement nodes, blocks are nonempty, and the
/// only unary operator is `not` (the parser produces no other).
pub open spec fn node_wf(nodes: Seq<AstNode>, i: int) -> bool {
    match nodes[i] {
        AstNode::NumberLiteral(..) => true,
        AstNode::FloatLiteral(..) => true,
        AstNode::BoolLiteral(..) => true,
        AstNode::StringLiteral(..) => true,
        AstNode::Name(..) => true,
        AstNode::Binary { left, right, .. } => {
            &&& left < i && nodes[left as int].is_expr()
            &&& right < i && nodes[right as int].is_expr()
        },
        AstNode::Unary { op, operand } => {
            &&& op.kind == TokenKind::Not
            &&& operand < i && nodes[operand as int].is_expr()
        },
        AstNode::Cond { condition, then_branch, else_branch } => {
            &&& condition < i && nodes[condition as int].is_expr()
            &&& then_branch < i && nodes[then_branch as int].is_expr()
            &&& match else_branch {
                Option::Some(e) => e < i && nodes[e as int].is_expr(),
                Option::None => true,
            }
        },
        AstNode::Block { statements, .. } => {
            &&& statements@.len() > 0
            &&& forall|j: int|
                0 <= j < statements@.len() ==> #[trigger] statements@[j] < i
                    && nodes[statements@[j] as int].is_stmt()
        },
        AstNode::SingleStatement(s) => s < i && nodes[s as int].is_stmt(),
        AstNode::Call { target, arguments } => {
            &&& target < i && nodes[target as int].is_expr()
            &&& forall|j: int|
                0 <= j < arguments@.len() ==> #[trigger] arguments@[j] < i
                    && nodes[arguments@[j] as int].is_expr()
        },
        AstNode::PartialCall { target, arguments } => {
            &&& target < i && nodes[target as int].is_expr()
            &&& forall|j: int|
                0 <= j < arguments@.len() ==> match #[trigger] arguments@[j] {
                    Option::Some(a) => a < i && nodes[a as int].is_expr(),
                    Option::None => true,
                }
        },
        AstNode::AnonFunction { arguments, body, .. } => {
            &&& arguments@.len() < usize::MAX
            &&& body < i && nodes[body as int].is_expr()
        },
        AstNode::PropertyAccess { target, .. } => target < i && nodes[target as int].is_expr(),
        AstNode::PropertyCheck { target, .. } => target < i && nodes[target as int].is_expr(),
        AstNode::VarDeclaration { value, .. } => match value {
            Option::Some(v) => v < i && nodes[v as int].is_expr(),
            Option::None => true,
        },
        AstNode::Assignment { value, .. } => value < i && nodes[value as int].is_expr(),
        AstNode::Expression(e) => e < i && nodes[e as int].is_expr(),
        AstNode::Assert { value, .. } => value < i && nodes[value as int].is_expr(),
        AstNode::Pass { .. } => true,
        AstNode::FunctionDeclaration { arguments, body, .. } => {
            &&& arguments@.len() < usize::MAX
            &&& body < i && nodes[body as int].is_expr()
        },
        AstNode::StructDeclaration { .. } => true,
        AstNode::EnumDeclaration { .. } => true,
        AstNode::PropertyAssignment { target, value } => {
            &&& target < i && nodes[target as int].is_expr()
            &&& value < i && nodes[value as int].is_expr()
        },
        AstNode::ImplBlock { implementations, .. } => forall|j: int|
            0 <= j < implementations@.len() ==> #[trigger] implementations@[j] < i
                && nodes[implementations@[j] as int].is_stmt(),
        AstNode::Import { .. } => true,
    }
}

/// A whole program: an arena of nodes and the index of the root node,
/// which is the block that wraps the program.
#[derive(Debug)]
pub struct Ast {
    pub nodes: Vec<AstNode>,
    pub root: usize,
}

impl Ast {
    /// The tree is well formed: the root is a block, and every node's
    /// children stand strictly before it in the arena.
    pub open spec fn wf(self) -> bool {
        &&& self.root < self.nodes@.len()
        &&& self.nodes@[self.root as int] matches AstNode::Block { .. }
        &&& forall|i: int| 0 <= i < self.nodes@.len() ==> node_wf(self.nodes@, i)
    }

    /// The source position a node's errors are reported at.
    pub open spec fn spec_position_of(self, id: usize) -> Index
        recommends
            self.wf(),
            id < self.nodes@.len(),
        decreases id,
    {
        match self.nodes@[id as int] {
            AstNode::NumberLiteral(t) => t.position,
            AstNode::FloatLiteral(t) => t.position,
            AstNode::BoolLiteral(t) => t.position,
            AstNode::StringLiteral(t) => t.position,
            AstNode::Name(t) => t.position,
            AstNode::Binary { op, .. } => op.position,
            AstNode::Unary { op, .. } => op.position,
            AstNode::Cond { condition, .. } => if condition < id {
                self.spec_position_of(condition)
            } else {
                Index(0, 0)
            },
            AstNode::Block { start, .. } => start.position,
            AstNode::SingleStatement(s) => if s < id {
                self.spec_position_of(s)
            } else {
                Index(0, 0)
            },
            AstNode::Call { target, .. } => if target < id {
                self.spec_position_of(target)
            } else {
                Index(0, 0)
            },
            AstNode::PartialCall { target, .. } => if target < id {
                self.spec_position_of(target)
            } else {
                Index(0, 0)
            },
            AstNode::AnonFunction { arrow, .. } => arrow.position,
            AstNode::PropertyAccess { property, .. } => property.position,
            AstNode::PropertyCheck { property, .. } => property.position,
            AstNode::VarDeclaration { name, .. } => name.name.position,
            AstNode::Assignment { target, .. } => target.position,
            AstNode::Expression(e) => if e < id {
                self.spec_position_of(e)
            } else {
                Index(0, 0)
            },
            AstNode::Assert { keyword, .. } => keyword.position,
            AstNode::Pass { keyword } => keyword.position,
            AstNode::FunctionDeclaration { name, .. } => name.position,
            AstNode::StructDeclaration { name, .. } => name.position,
            AstNode::EnumDeclaration { name, .. } => name.position,
            AstNode::PropertyAssignment { target, .. } => if target < id {
                self.spec_position_of(target)
            } else {
                Index(0, 0)
            },
            AstNode::ImplBlock { name, .. } => name.position,
            AstNode::Import { name, .. } => name.position,
        }
    }

    /// Executable twin of `spec_position_of`.
    pub fn position_of(&self, id: usize) -> (p: Index)
        requires
            self.wf(),
            id < self.nodes@.len(),
        ensures
            p == self.spec_position_of(id),
        decreases id,
    {
        proof {
            assert(node_wf(self.nodes@, id as int));
        }
        match &self.nodes[id] {
            AstNode::NumberLiteral(t) => t.position,
            AstNode::FloatLiteral(t) => t.position,
            AstNode::BoolLiteral(t) => t.position,
            AstNode::StringLiteral(t) => t.position,
            AstNode::Name(t) => t.position,
            AstNode::Binary { op, .. } => op.position,
            AstNode::Unary { op, .. } => op.position,
            AstNode::Cond { condition, .. } => self.position_of(*condition),
            AstNode::Block { start, .. } => start.position,
            AstNode::SingleStatement(s) => self.position_of(*s),
            AstNode::Call { target, .. } => self.position_of(*target),
            AstNode::PartialCall { target, .. } => self.position_of(*target),
            AstNode::AnonFunction { arrow, .. } => arrow.position,
            AstNode::PropertyAccess { property, .. } => property.position,
            AstNode::PropertyCheck { property, .. } => property.position,
            AstNode::VarDeclaration { name, .. } => name.name.position,
            AstNode::Assignment { target, .. } => target.position,
            AstNode::Expression(e) => self.position_of(*e),
            AstNode::Assert { keyword, .. } => keyword.position,
            AstNode::Pass { keyword } => keyword.position,
            AstNode::FunctionDeclaration { name, .. } => name.position,
            AstNode::StructDeclaration { name, .. } => name.position,
            AstNode::EnumDeclaration { name, .. } => name.position,
            AstNode::PropertyAssignment { target, .. } => self.position_of(*target),
            AstNode::ImplBlock { name, .. } => name.position,
            AstNode::Import { name, .. } => name.position,
        }
    }
}

} // verus!
