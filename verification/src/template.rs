//! Parsed templates: parsing a template string and rendering it with data.
use vstd::prelude::*;
use crate::error::{ParseError, ParseErrorV, RenderError, RenderErrorV};
use crate::lexer::{lex, tokenize};
use crate::parser::{Closing, Node, NodeV, copy_nodes, nodes_view, parse_from, parse_tokens};
use crate::render::{render_nodes, render_seq, deref_opt};
use crate::value::ValueMap;

verus! {

broadcast use vstd::string::group_string_axioms;

/// The nodes a template string parses to, or the error that stops it.
pub open spec fn parse_template(s: Seq<char>) -> Result<Seq<NodeV>, ParseErrorV> {
    match lex(s) {
        Err(e) => Err(e),
        Ok(ts) => match parse_from(ts, 0, Closing::Top) {
            Err(e) => Err(e),
            Ok((ns, j)) => if j == ts.len() {
                Ok(ns)
            } else {
                Err(ParseErrorV::InvalidSyntax("unexpected tokens after end of template"@))
            },
        },
    }
}

/// The output of parsed nodes rendered with `data`, or the first error.
pub open spec fn render_template(nodes: Seq<NodeV>, data: ValueMap) -> Result<Seq<char>, RenderErrorV> {
    render_seq(nodes, data, None)
}

/// A parsed template that can be rendered with data.
#[derive(Debug)]
pub struct Template {
    nodes: Vec<Node>,
}

impl View for Template {
    type V = Seq<NodeV>;

    closed spec fn view(&self) -> Seq<NodeV> {
        nodes_view(self.nodes@)
    }
}

impl Template {
    /// Parses a template string.
    ///
    /// Fails with `ParseError` on unmatched blocks or invalid syntax.
    #[must_use]
    pub fn parse(template: &str) -> (r: Result<Template, ParseError>)
        ensures
            match parse_template(template@) {
                Ok(ns) => r is Ok && r->Ok_0@ == ns,
                Err(e) => r is Err && r->Err_0@ == e,
            },
    {
        let tokens = match tokenize(template) {
            Ok(t) => t,
            Err(e) => {
                return Err(e);
            },
        };
        let (nodes, rest) = match parse_tokens(&tokens, 0, Closing::Top) {
            Ok(p) => p,
            Err(e) => {
                return Err(e);
            },
        };
        if rest != tokens.len() {
            return Err(
                ParseError::InvalidSyntax(
                    String::from_str("unexpected tokens after end of template"),
                ),
            );
        }
        Ok(Template { nodes })
    }

    /// Renders this template with the given data.
    ///
    /// Fails with `RenderError` on a missing variable or a type mismatch.
    #[must_use]
    pub fn render(&self, data: &ValueMap) -> (r: Result<String, RenderError>)
        ensures
            match render_template(self@, *data) {
                Ok(o) => r is Ok && r->Ok_0@ == o,
                Err(e) => r is Err && r->Err_0@ == e,
            },
    {
        let mut output = String::new();
        match render_nodes(&self.nodes, data, None, &mut output) {
            Ok(()) => {},
            Err(e) => {
                return Err(e);
            },
        }
        assert(deref_opt(None) == None::<crate::value::Value>);
        Ok(output)
    }
}

impl Clone for Template {
    fn clone(&self) -> (r: Template)
        ensures
            r@ == self@,
    {
        Template { nodes: copy_nodes(&self.nodes) }
    }
}

} // verus!
