//! The two passes over a dump.
use vstd::prelude::*;

use crate::dump::{outcomes_of, run, run_pass, start, Action, Outcome, XmlEvent};
use crate::graph::{build_graph, graph_file, is_outcome, GraphError};
use crate::models::{rows_of, LookupEntry};
use crate::text::contents;

verus! {

/// What the passes work with.
pub struct Parser {
    output_file_path: String,
    connection_string: String,
    count: i32,
}

/// What the passes work with, by value.
pub struct ParserState {
    pub output_file_path: Seq<char>,
    pub connection_string: Seq<char>,
    /// The articles that the first pass found.
    pub count: i32,
}

impl View for Parser {
    type V = ParserState;

    closed spec fn view(&self) -> ParserState {
        ParserState {
            output_file_path: self.output_file_path@,
            connection_string: self.connection_string@,
            count: self.count,
        }
    }
}

/// The number of articles that the end of a dump reports; where the dump has not ended, the one
/// that was known before.
pub open spec fn counted(outcomes: Seq<Outcome>, known: i32) -> i32 {
    if outcomes.len() > 0 && outcomes.last() is Finish {
        outcomes.last()->Finish_0
    } else {
        known
    }
}

impl Parser {
    /// A parser that has read nothing yet.
    pub fn new(output_file_path: String, db_url: String) -> (parser: Parser)
        ensures
            parser@ == (ParserState {
                output_file_path: output_file_path@,
                connection_string: db_url@,
                count: 0,
            }),
    {
        Parser { output_file_path, connection_string: db_url, count: 0 }
    }

    /// Sets the number of articles.
    pub fn set_count(&mut self, count: i32)
        ensures
            final(self)@ == (ParserState { count, ..old(self)@ }),
    {
        self.count = count;
    }

    /// The number of articles.
    pub fn count(&self) -> (count: i32)
        ensures
            count == self@.count,
    {
        self.count
    }

    /// Where the graph file belongs.
    pub fn output_file_path(&self) -> (path: &str)
        ensures
            path@ == self@.output_file_path,
    {
        self.output_file_path.as_str()
    }

    /// How the tables are reached.
    pub fn connection_string(&self) -> (url: &str)
        ensures
            url@ == self@.connection_string,
    {
        self.connection_string.as_str()
    }

    /// The first pass over the events of a dump: what is to be done, in order. The number of
    /// articles is kept for the second pass once the dump has ended.
    pub fn pre_process_file(&mut self, events: &Vec<XmlEvent>) -> (actions: Vec<Action>)
        ensures
            outcomes_of(actions@) == run(start(), events@).1,
            final(self)@ == (ParserState {
                count: counted(run(start(), events@).1, old(self)@.count),
                ..old(self)@
            }),
    {
        let (_, actions) = run_pass(events);
        assert(actions@.len() > 0 ==> outcomes_of(actions@).last() == actions@.last()@);
        if actions.len() > 0 {
            if let Action::Finish(count) = actions[actions.len() - 1] {
                self.set_count(count);
            }
        }
        actions
    }

    /// The second pass: the graph file, from the lines of the adjacency list and the rows of the
    /// lookup table.
    pub fn create_graph(&self, lines: &Vec<String>, entries: &Vec<LookupEntry>) -> (file: Result<
        Vec<u8>,
        GraphError,
    >)
        ensures
            is_outcome(file, graph_file(self@.count, contents(lines@), rows_of(entries@))),
    {
        build_graph(self.count, lines, entries)
    }
}

/// The number of articles is the one that the end of a dump reports; a dump that has not ended
/// leaves the one that was known.
pub proof fn law_counted(outcomes: Seq<Outcome>, count: i32, last: Outcome, known: i32)
    ensures
        counted(outcomes.push(Outcome::Finish(count)), known) == count,
        !(last is Finish) ==> counted(outcomes.push(last), known) == known,
        counted(seq![], known) == known,
{
}

} // verus!
