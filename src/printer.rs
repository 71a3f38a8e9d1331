use vstd::prelude::*;
use vstd::string::*;

use crate::ast::{
    Arithmetic, Assignment, Compare, Comparator, Expression, ExprStatement, Float, For, FuncDef,
    FuncImpl, FunctionCall, If, Int, Let, Not, OpType, Program, Return, Statement, StructCtor,
    StructDef, TypedArg, UnaryMinus, Variable, While,
};

verus! {

impl Comparator {
    /// The operator as written in source.
    pub fn symbol(&self) -> (r: &'static str) {
        match self {
            Comparator::LE => "<=",
            Comparator::GE => ">=",
            Comparator::LT => "<",
            Comparator::GT => ">",
            Comparator::EQ => "==",
            Comparator::NE => "!=",
        }
    }
}

impl OpType {
    /// The operator as written in source.
    pub fn symbol(&self) -> (r: &'static str) {
        match self {
            OpType::Mul => "*",
            OpType::Div => "/",
            OpType::Add => "+",
            OpType::Sub => "-",
        }
    }
}

impl Variable {
    /// The variable with its field path: `a.b.c`.
    pub fn path(&self) -> (r: String) {
        let mut r = self.name.clone();
        let mut i: usize = 0;
        while i < self.fields.len()
            decreases self.fields@.len() - i,
        {
            r.append(".");
            r.append(self.fields[i].as_str());
            i = i + 1;
        }
        r
    }
}

/// Writes an indented tree of the AST, one node per line.
pub struct ASTPrinter {
    pub writer: String,
    pub ident: usize,
}

impl ASTPrinter {
    pub fn new() -> (r: ASTPrinter)
        ensures
            r.writer@.len() == 0,
            r.ident == 0,
    {
        ASTPrinter { writer: String::new(), ident: 0 }
    }

    /// Writes the indentation of the current depth.
    pub fn shift(&mut self)
        ensures
            final(self).ident == old(self).ident,
            final(self).writer@.len() == old(self).writer@.len() + old(self).ident,
            final(self).writer@.subrange(0, old(self).writer@.len() as int) == old(self).writer@,
    {
        let mut i: usize = 0;
        while i < self.ident
            invariant
                i <= self.ident,
                self.ident == old(self).ident,
                self.writer@.len() == old(self).writer@.len() + i,
                self.writer@.subrange(0, old(self).writer@.len() as int) == old(self).writer@,
            decreases self.ident - i,
        {
            let ghost before = self.writer@;
            self.writer.append(" ");
            proof {
                reveal_strlit(" ");
                assert(self.writer@.subrange(0, old(self).writer@.len() as int) =~= before.subrange(0, old(self).writer@.len() as int));
            }
            i = i + 1;
        }
    }

    /// Writes one line at the current depth.
    fn line(&mut self, parts: &[&str])
        ensures
            final(self).ident == old(self).ident,
    {
        self.shift();
        let mut i: usize = 0;
        while i < parts.len()
            invariant
                self.ident == old(self).ident,
            decreases parts.len() - i,
        {
            self.writer.append(parts[i]);
            i = i + 1;
        }
        self.writer.append("\n");
    }

    /// A `- name:` header, its subtree three columns deeper.
    fn subtree(&mut self, name: &str, node: &Expression)
        ensures
            final(self).ident == old(self).ident,
        decreases node, 1int,
    {
        self.line(&["- ", name, ":"]);
        let saved = self.ident;
        self.ident = self.ident.saturating_add(3);
        self.visit_expr(node);
        self.ident = saved;
    }

    /// A `- name:` header, the statement three columns deeper.
    fn substatement(&mut self, name: &str, node: &Statement)
        ensures
            final(self).ident == old(self).ident,
        decreases node, 1int,
    {
        self.line(&["- ", name, ":"]);
        let saved = self.ident;
        self.ident = self.ident.saturating_add(3);
        self.visit_statement(node);
        self.ident = saved;
    }

    /// A `- name:` header, the expressions three columns deeper.
    fn expr_list(&mut self, name: &str, nodes: &Vec<Expression>)
        ensures
            final(self).ident == old(self).ident,
        decreases nodes, 1int,
    {
        self.line(&["- ", name, ":"]);
        let saved = self.ident;
        self.ident = self.ident.saturating_add(3);
        let mut i: usize = 0;
        while i < nodes.len()
            invariant
                self.ident == saved.saturating_add(3),
            decreases nodes@.len() - i,
        {
            proof {
                assert(decreases_to!(nodes => nodes@));
                assert(decreases_to!(nodes@ => nodes@[i as int]));
            }
            self.visit_expr(&nodes[i]);
            i = i + 1;
        }
        self.ident = saved;
    }

    /// A `- name:` header, the statements three columns deeper.
    fn body(&mut self, name: &str, nodes: &Vec<Statement>)
        ensures
            final(self).ident == old(self).ident,
        decreases nodes, 1int,
    {
        self.line(&["- ", name, ":"]);
        let saved = self.ident;
        self.ident = self.ident.saturating_add(3);
        let mut i: usize = 0;
        while i < nodes.len()
            invariant
                self.ident == saved.saturating_add(3),
            decreases nodes@.len() - i,
        {
            proof {
                assert(decreases_to!(nodes => nodes@));
                assert(decreases_to!(nodes@ => nodes@[i as int]));
            }
            self.visit_statement(&nodes[i]);
            i = i + 1;
        }
        self.ident = saved;
    }

    /// A `- name:` header, the typed entries three columns deeper.
    fn typed_list(&mut self, name: &str, args: &Vec<TypedArg>)
        ensures
            final(self).ident == old(self).ident,
    {
        self.line(&["- ", name, ":"]);
        let saved = self.ident;
        self.ident = self.ident.saturating_add(3);
        let mut i: usize = 0;
        while i < args.len()
            invariant
                self.ident == saved.saturating_add(3),
            decreases args@.len() - i,
        {
            self.line(&[args[i].name.as_str(), ": ", args[i].tp.as_str()]);
            i = i + 1;
        }
        self.ident = saved;
    }

    pub fn visit_expr(&mut self, node: &Expression)
        ensures
            final(self).ident == old(self).ident,
        decreases node, 0int,
    {
        match node {
            Expression::Int(n) => self.visit_int(n),
            Expression::Float(f) => self.visit_float(f),
            Expression::Variable(v) => self.visit_variable(v),
            Expression::UnaryMinus(u) => {
                self.line(&["UnaryMinus"]);
                self.subtree("Value", &u.expr);
            },
            Expression::Not(n) => {
                self.line(&["Not"]);
                self.subtree("Value", &n.expr);
            },
            Expression::Arithmetic(a) => {
                self.line(&["Arithmetic node (sign: ", a.op.symbol(), ")"]);
                self.subtree("LHS", &a.lhs);
                self.subtree("RHS", &a.rhs);
            },
            Expression::Compare(c) => {
                self.line(&["Compare node (comparator: ", c.cmp.symbol(), ")"]);
                self.subtree("LHS", &c.lhs);
                self.subtree("RHS", &c.rhs);
            },
            Expression::FunctionCall(f) => {
                self.line(&["Calling function ", f.name.as_str()]);
                self.expr_list("Args", &f.args);
            },
            Expression::StructCtor(s) => self.visit_structctor(s),
        }
    }

    pub fn visit_int(&mut self, node: &Int)
        ensures
            final(self).ident == old(self).ident,
    {
        let text = node.val.to_string();
        self.line(&["Int ", text.as_str()]);
    }

    pub fn visit_float(&mut self, node: &Float)
        ensures
            final(self).ident == old(self).ident,
    {
        self.line(&["Float ", node.text.as_str()]);
    }

    pub fn visit_variable(&mut self, node: &Variable)
        ensures
            final(self).ident == old(self).ident,
    {
        let path = node.path();
        self.line(&["Variable ", path.as_str()]);
    }

    pub fn visit_structctor(&mut self, node: &StructCtor)
        ensures
            final(self).ident == old(self).ident,
    {
        self.line(&["Struct Ctor of type ", node.name.as_str()]);
        self.line(&["- Args:"]);
    }

    pub fn visit_statement(&mut self, node: &Statement)
        ensures
            final(self).ident == old(self).ident,
        decreases node, 0int,
    {
        match node {
            Statement::ExprStatement(s) => {
                self.line(&["ExprStatement node"]);
                self.subtree("Expr", &s.expr);
            },
            Statement::Let(s) => {
                match &s.tp {
                    Some(tp) => self.line(&["Let to var ", s.var.as_str(), " of type Some(\"", tp.as_str(), "\")"]),
                    None => self.line(&["Let to var ", s.var.as_str(), " of type None"]),
                }
                self.subtree("Value", &s.expr);
            },
            Statement::Assignment(s) => {
                let path = s.var.path();
                self.line(&["Assignment to var ", path.as_str()]);
                self.subtree("Value", &s.expr);
            },
            Statement::If(s) => {
                self.line(&["If"]);
                self.subtree("Condition", &s.check);
                self.body("True Body", &s.true_body);
                match &s.else_body {
                    Some(b) => self.body("Else Body", b),
                    None => {},
                }
            },
            Statement::While(s) => {
                self.line(&["While Loop"]);
                self.subtree("Condition", &s.cond);
                self.body("Body", &s.body);
            },
            Statement::For(s) => {
                self.line(&["For Loop"]);
                self.substatement("Start", &s.start);
                self.subtree("Check", &s.check);
                self.substatement("Step", &s.step);
                self.body("Body", &s.body);
            },
            Statement::Return(s) => match &s.expr {
                Some(e) => {
                    self.line(&["Return val"]);
                    self.subtree("Val", e);
                },
                None => self.line(&["Return void"]),
            },
            Statement::FuncDef(f) => self.visit_funcdef(f),
            Statement::FuncImpl(f) => {
                self.line(&["FuncImpl of fn ", f.name.as_str(), " -> ", f.rettype.as_str()]);
                self.typed_list("Args", &f.args);
                self.body("Body", &f.body);
            },
            Statement::StructDef(s) => self.visit_structdef(s),
        }
    }

    pub fn visit_funcdef(&mut self, node: &FuncDef)
        ensures
            final(self).ident == old(self).ident,
    {
        self.line(&["FuncDef of fn ", node.name.as_str(), " -> ", node.rettype.as_str()]);
        self.typed_list("Args", &node.args);
    }

    pub fn visit_structdef(&mut self, node: &StructDef)
        ensures
            final(self).ident == old(self).ident,
    {
        self.line(&["StructDef of type ", node.name.as_str()]);
        self.typed_list("Fields", &node.fields);
    }

    pub fn visit_program(&mut self, node: &Program)
        ensures
            final(self).ident == old(self).ident,
    {
        self.line(&["Program"]);
        self.body("Blocks", &node.blocks);
    }
}

/// The AST of a program as an indented tree, one node per line.
pub fn print_ast(program: &Program) -> (r: String) {
    let mut printer = ASTPrinter::new();
    printer.visit_program(program);
    printer.writer
}

} // verus!
