//! The grammar of statements and expressions, as a tree.

use vstd::prelude::*;

verus! {

/// A node of the syntax tree. Every child belongs to one parent alone.
#[allow(inconsistent_fields)]
#[derive(Debug, PartialEq)]
pub enum Stmt {
    Program(Program),
    ObjectLiteral(Vec<Property>),
    NumericLiteral(String),
    Identifier(String),
    Comment(String),
    FnDeclaration { name: String, parameters: Vec<String>, body: Vec<Stmt>, is_const: bool },
    VarDeclaration { constant: bool, identifier: String, value: Option<Box<Stmt>> },
    AssignmentExpr { assignee: Box<Stmt>, value: Box<Stmt> },
    MemberExpr { object: Box<Stmt>, property: Box<Stmt>, computed: bool },
    CallExpr { args: Vec<Stmt>, caller: Box<Stmt> },
    BinaryExpr { left: Box<Stmt>, right: Box<Stmt>, operator: String },
    UniaryExpr,
    FunctionDeclaration,
}

/// A whole parsed text: its top-level statements in order.
#[derive(Debug, PartialEq)]
pub struct Program {
    pub body: Vec<Stmt>,
}

/// A placeholder for expressions as a type of their own.
#[derive(Debug, PartialEq)]
pub struct Expr {}

/// One entry of an object literal. Without a value it is shorthand for
/// the variable of the same name.
#[derive(Debug, PartialEq)]
pub struct Property {
    pub key: String,
    pub value: Option<Box<Stmt>>,
}

/// A node of the syntax tree as a mathematical value.
#[allow(inconsistent_fields)]
pub enum StmtView {
    Program(Seq<StmtView>),
    ObjectLiteral(Seq<PropertyView>),
    NumericLiteral(Seq<char>),
    Identifier(Seq<char>),
    Comment(Seq<char>),
    FnDeclaration { name: Seq<char>, parameters: Seq<Seq<char>>, body: Seq<StmtView>, is_const: bool },
    VarDeclaration { constant: bool, identifier: Seq<char>, value: Option<Box<StmtView>> },
    AssignmentExpr { assignee: Box<StmtView>, value: Box<StmtView> },
    MemberExpr { object: Box<StmtView>, property: Box<StmtView>, computed: bool },
    CallExpr { args: Seq<StmtView>, caller: Box<StmtView> },
    BinaryExpr { left: Box<StmtView>, right: Box<StmtView>, operator: Seq<char> },
    UniaryExpr,
    FunctionDeclaration,
}

/// An entry of an object literal as a mathematical value.
pub struct PropertyView {
    pub key: Seq<char>,
    pub value: Option<Box<StmtView>>,
}

/// The texts of a sequence of strings, one for one.
pub open spec fn strings_view(strings: Seq<String>) -> Seq<Seq<char>> {
    strings.map_values(|s: String| s@)
}

/// The views of a sequence of nodes, one for one.
pub open spec fn stmts_view(stmts: Seq<Stmt>) -> Seq<StmtView>
    decreases stmts,
{
    Seq::new(
        stmts.len(),
        |i: int|
            if 0 <= i < stmts.len() {
                stmt_view(stmts[i])
            } else {
                StmtView::UniaryExpr
            },
    )
}

/// The view of a child that may be absent.
pub open spec fn child_view(child: Option<Box<Stmt>>) -> Option<Box<StmtView>>
    decreases child,
{
    match child {
        Some(node) => Some(Box::new(stmt_view(*node))),
        None => None,
    }
}

/// The view of one entry of an object literal.
pub open spec fn property_view(property: Property) -> PropertyView
    decreases property,
{
    PropertyView { key: property.key@, value: child_view(property.value) }
}

/// The views of the entries of an object literal, one for one.
pub open spec fn properties_view(properties: Seq<Property>) -> Seq<PropertyView>
    decreases properties,
{
    Seq::new(
        properties.len(),
        |i: int|
            if 0 <= i < properties.len() {
                property_view(properties[i])
            } else {
                PropertyView { key: Seq::empty(), value: None }
            },
    )
}

/// The tree that a node stands for.
pub open spec fn stmt_view(stmt: Stmt) -> StmtView
    decreases stmt,
{
    match stmt {
        Stmt::Program(program) => StmtView::Program(stmts_view(program.body@)),
        Stmt::ObjectLiteral(properties) => StmtView::ObjectLiteral(properties_view(properties@)),
        Stmt::NumericLiteral(text) => StmtView::NumericLiteral(text@),
        Stmt::Identifier(name) => StmtView::Identifier(name@),
        Stmt::Comment(text) => StmtView::Comment(text@),
        Stmt::FnDeclaration { name, parameters, body, is_const } => StmtView::FnDeclaration {
            name: name@,
            parameters: strings_view(parameters@),
            body: stmts_view(body@),
            is_const,
        },
        Stmt::VarDeclaration { constant, identifier, value } => StmtView::VarDeclaration {
            constant,
            identifier: identifier@,
            value: child_view(value),
        },
        Stmt::AssignmentExpr { assignee, value } => StmtView::AssignmentExpr {
            assignee: Box::new(stmt_view(*assignee)),
            value: Box::new(stmt_view(*value)),
        },
        Stmt::MemberExpr { object, property, computed } => StmtView::MemberExpr {
            object: Box::new(stmt_view(*object)),
            property: Box::new(stmt_view(*property)),
            computed,
        },
        Stmt::CallExpr { args, caller } => StmtView::CallExpr {
            args: stmts_view(args@),
            caller: Box::new(stmt_view(*caller)),
        },
        Stmt::BinaryExpr { left, right, operator } => StmtView::BinaryExpr {
            left: Box::new(stmt_view(*left)),
            right: Box::new(stmt_view(*right)),
            operator: operator@,
        },
        Stmt::UniaryExpr => StmtView::UniaryExpr,
        Stmt::FunctionDeclaration => StmtView::FunctionDeclaration,
    }
}

/// A copy of a vector of strings.
pub fn clone_strings(strings: &Vec<String>) -> (copy: Vec<String>)
    ensures
        strings_view(copy@) == strings_view(strings@),
{
    let mut copy: Vec<String> = Vec::new();
    let mut i: usize = 0;
    while i < strings.len()
        invariant
            i <= strings.len(),
            copy.len() == i,
            forall|k: int| 0 <= k < i ==> (#[trigger] copy[k])@ == strings[k]@,
        decreases strings.len() - i,
    {
        copy.push(strings[i].clone());
        i += 1;
    }
    assert(strings_view(copy@) =~= strings_view(strings@));
    copy
}

/// A copy of a vector of nodes.
pub fn clone_stmts(stmts: &Vec<Stmt>) -> (copy: Vec<Stmt>)
    ensures
        stmts_view(copy@) == stmts_view(stmts@),
    decreases stmts,
{
    let mut copy: Vec<Stmt> = Vec::new();
    let mut i: usize = 0;
    while i < stmts.len()
        invariant
            i <= stmts.len(),
            copy.len() == i,
            forall|k: int| 0 <= k < i ==> (#[trigger] copy[k])@ == stmts[k]@,
        decreases stmts.len() - i,
    {
        copy.push(clone_stmt(&stmts[i]));
        i += 1;
    }
    assert(stmts_view(copy@) =~= stmts_view(stmts@));
    copy
}

/// A copy of a child that may be absent.
pub fn clone_child(child: &Option<Box<Stmt>>) -> (copy: Option<Box<Stmt>>)
    ensures
        child_view(copy) == child_view(*child),
    decreases child,
{
    match child {
        Some(node) => Some(Box::new(clone_stmt(&**node))),
        None => None,
    }
}

/// A copy of the entries of an object literal.
pub fn clone_properties(properties: &Vec<Property>) -> (copy: Vec<Property>)
    ensures
        properties_view(copy@) == properties_view(properties@),
    decreases properties,
{
    let mut copy: Vec<Property> = Vec::new();
    let mut i: usize = 0;
    while i < properties.len()
        invariant
            i <= properties.len(),
            copy.len() == i,
            forall|k: int| 0 <= k < i ==> (#[trigger] copy[k])@ == properties[k]@,
        decreases properties.len() - i,
    {
        let property = &properties[i];
        copy.push(Property { key: property.key.clone(), value: clone_child(&property.value) });
        i += 1;
    }
    assert(properties_view(copy@) =~= properties_view(properties@));
    copy
}

/// A copy of a node and of everything below it.
pub fn clone_stmt(stmt: &Stmt) -> (copy: Stmt)
    ensures
        copy@ == stmt@,
    decreases stmt,
{
    match stmt {
        Stmt::Program(program) => Stmt::Program(Program { body: clone_stmts(&program.body) }),
        Stmt::ObjectLiteral(properties) => Stmt::ObjectLiteral(clone_properties(properties)),
        Stmt::NumericLiteral(text) => Stmt::NumericLiteral(text.clone()),
        Stmt::Identifier(name) => Stmt::Identifier(name.clone()),
        Stmt::Comment(text) => Stmt::Comment(text.clone()),
        Stmt::FnDeclaration { name, parameters, body, is_const } => Stmt::FnDeclaration {
            name: name.clone(),
            parameters: clone_strings(parameters),
            body: clone_stmts(body),
            is_const: *is_const,
        },
        Stmt::VarDeclaration { constant, identifier, value } => Stmt::VarDeclaration {
            constant: *constant,
            identifier: identifier.clone(),
            value: clone_child(value),
        },
        Stmt::AssignmentExpr { assignee, value } => Stmt::AssignmentExpr {
            assignee: Box::new(clone_stmt(&**assignee)),
            value: Box::new(clone_stmt(&**value)),
        },
        Stmt::MemberExpr { object, property, computed } => Stmt::MemberExpr {
            object: Box::new(clone_stmt(&**object)),
            property: Box::new(clone_stmt(&**property)),
            computed: *computed,
        },
        Stmt::CallExpr { args, caller } => Stmt::CallExpr {
            args: clone_stmts(args),
            caller: Box::new(clone_stmt(&**caller)),
        },
        Stmt::BinaryExpr { left, right, operator } => Stmt::BinaryExpr {
            left: Box::new(clone_stmt(&**left)),
            right: Box::new(clone_stmt(&**right)),
            operator: operator.clone(),
        },
        Stmt::UniaryExpr => Stmt::UniaryExpr,
        Stmt::FunctionDeclaration => Stmt::FunctionDeclaration,
    }
}

/// What formatting a node with `{:?}` gives: the text that the derived
/// `Debug` writes for the tree.
pub uninterp spec fn debug_text(stmt: StmtView) -> Seq<char>;

impl Stmt {
    /// The node as `{:?}` formats it, through the `Debug` that is derived
    /// for the tree. The text depends on nothing but the tree; what it
    /// reads is not stated.
    #[verifier::external_body]
    pub(crate) fn debug(&self) -> (text: String)
        ensures
            text@ == debug_text(self@),
    {
        format!("{:?}", self)
    }
}

impl Clone for Stmt {
    fn clone(&self) -> (copy: Self)
        ensures
            copy@ == self@,
    {
        clone_stmt(self)
    }
}

impl Clone for Property {
    fn clone(&self) -> (copy: Self)
        ensures
            copy@ == self@,
    {
        Property { key: self.key.clone(), value: clone_child(&self.value) }
    }
}

impl Clone for Program {
    fn clone(&self) -> (copy: Self)
        ensures
            copy@ == self@,
    {
        Program { body: clone_stmts(&self.body) }
    }
}

impl Clone for Expr {
    fn clone(&self) -> (copy: Self) {
        Expr {  }
    }
}

impl View for Property {
    type V = PropertyView;

    open spec fn view(&self) -> PropertyView {
        property_view(*self)
    }
}

impl View for Program {
    type V = Seq<StmtView>;

    open spec fn view(&self) -> Seq<StmtView> {
        stmts_view(self.body@)
    }
}

impl View for Stmt {
    type V = StmtView;

    open spec fn view(&self) -> StmtView {
        stmt_view(*self)
    }
}

} // verus!
