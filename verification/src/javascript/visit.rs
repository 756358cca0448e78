//! Walking a tree with a visitor: the tree hands itself to the method of the
//! visitor that is meant for its kind.

use vstd::prelude::*;
use crate::context::texts;
use crate::javascript::ast::{Program, Statement};
use crate::javascript::queries::import_sources;

verus! {

/// Something that looks at programs and statements. What a visit does to
/// the visitor and what it gives back is for each visitor to say.
pub trait Visitor: Sized {
    type Result;

    /// Whether a visit of `program` can turn `before` into `after` and give
    /// `result`.
    spec fn visits_program(before: Self, program: Program, after: Self, result: Self::Result)
        -> bool;

    /// Whether a visit of `statement` can turn `before` into `after` and
    /// give `result`.
    spec fn visits_statement(
        before: Self,
        statement: Statement,
        after: Self,
        result: Self::Result,
    ) -> bool;

    fn visit_program(&mut self, program: &Program) -> (result: Self::Result)
        ensures
            Self::visits_program(*old(self), *program, *final(self), result),
    ;

    fn visit_statement(&mut self, statement: &Statement) -> (result: Self::Result)
        ensures
            Self::visits_statement(*old(self), *statement, *final(self), result),
    ;
}

/// A tree that a visitor can be sent to.
pub trait Data {
    /// Sends the visitor to this tree and gives back what it answers.
    fn accept<V: Visitor>(&self, visitor: &mut V) -> (result: V::Result);
}

impl Data for Program {
    /// The visitor visits the program.
    fn accept<V: Visitor>(&self, visitor: &mut V) -> (result: V::Result)
        ensures
            V::visits_program(*old(visitor), *self, *final(visitor), result),
    {
        visitor.visit_program(self)
    }
}

impl Data for Statement {
    /// The visitor visits the statement.
    fn accept<V: Visitor>(&self, visitor: &mut V) -> (result: V::Result)
        ensures
            V::visits_statement(*old(visitor), *self, *final(visitor), result),
    {
        visitor.visit_statement(self)
    }
}

/// A visitor that gathers what the imports it sees name.
pub struct ImportCollector {
    pub sources: Vec<String>,
}

/// What an import names, as a list of one; nothing for another statement.
pub open spec fn source_of(statement: Statement) -> Seq<Seq<char>> {
    match statement {
        Statement::Import(_, source) => seq![source@],
        _ => Seq::empty(),
    }
}

impl Visitor for ImportCollector {
    type Result = ();

    open spec fn visits_program(
        before: ImportCollector,
        program: Program,
        after: ImportCollector,
        result: (),
    ) -> bool {
        texts(after.sources@) == texts(before.sources@) + import_sources(
            program.body@,
            program.body@.len() as int,
        )
    }

    open spec fn visits_statement(
        before: ImportCollector,
        statement: Statement,
        after: ImportCollector,
        result: (),
    ) -> bool {
        texts(after.sources@) == texts(before.sources@) + source_of(statement)
    }

    fn visit_program(&mut self, program: &Program) -> (result: ()) {
        let ghost start = texts(self.sources@);
        let mut i: usize = 0;
        proof {
            assert(start + import_sources(program.body@, 0) =~= start);
        }
        while i < program.body.len()
            invariant
                i <= program.body@.len(),
                texts(self.sources@) == start + import_sources(program.body@, i as int),
            decreases program.body@.len() - i,
        {
            let ghost before = texts(self.sources@);
            self.visit_statement(&program.body[i]);
            proof {
                let listed = import_sources(program.body@, i as int);
                match program.body@[i as int] {
                    Statement::Import(_, source) => {
                        assert(start + listed.push(source@) =~= start + listed + seq![source@]);
                    },
                    _ => {
                        assert(before + Seq::<Seq<char>>::empty() =~= before);
                    },
                }
            }
            i += 1;
        }
    }

    fn visit_statement(&mut self, statement: &Statement) -> (result: ()) {
        match statement {
            Statement::Import(_, source) => {
                let copy = source.clone();
                proof {
                    assert(texts(self.sources@.push(copy)) =~= texts(self.sources@) + seq![
                        source@,
                    ]);
                }
                self.sources.push(copy);
            },
            _ => {
                proof {
                    assert(texts(self.sources@) + Seq::<Seq<char>>::empty() =~= texts(
                        self.sources@,
                    ));
                }
            },
        }
    }
}

impl ImportCollector {
    /// A collector that has seen nothing.
    pub fn new() -> (c: ImportCollector)
        ensures
            c.sources@.len() == 0,
    {
        ImportCollector { sources: Vec::new() }
    }
}

} // verus!
