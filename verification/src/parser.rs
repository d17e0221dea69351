//! Building the tree of a template from its tokens.
use vstd::prelude::*;
use crate::error::{ParseError, ParseErrorV};
use crate::lexer::{Token, TokenV, tokens_view};

verus! {

broadcast use vstd::string::group_string_axioms;

/// A node of a parsed template.
#[derive(Debug)]
pub enum Node {
    /// Literal text.
    Text(String),
    /// A variable reference with an optional filter: `{name}` or `{name|upper}`.
    Variable { path: String, filter: Option<String> },
    /// A conditional block: `{#if cond}...{/if}` with an optional `{:else}`.
    Conditional { variable: String, negated: bool, body: Vec<Node>, else_body: Vec<Node> },
    /// A loop block: `{#each list}...{/each}`.
    Loop { variable: String, body: Vec<Node> },
}

/// What a node holds.
pub enum NodeV {
    Text(Seq<char>),
    Variable { path: Seq<char>, filter: Option<Seq<char>> },
    Conditional {
        variable: Seq<char>,
        negated: bool,
        body: Seq<NodeV>,
        else_body: Seq<NodeV>,
    },
    Loop { variable: Seq<char>, body: Seq<NodeV> },
}

/// The view of a node.
pub open spec fn node_view(n: Node) -> NodeV
    decreases n,
{
    match n {
        Node::Text(t) => NodeV::Text(t@),
        Node::Variable { path, filter } => NodeV::Variable {
            path: path@,
            filter: match filter {
                Some(f) => Some(f@),
                None => None,
            },
        },
        Node::Conditional { variable, negated, body, else_body } => NodeV::Conditional {
            variable: variable@,
            negated: negated,
            body: nodes_view(body@),
            else_body: nodes_view(else_body@),
        },
        Node::Loop { variable, body } => NodeV::Loop {
            variable: variable@,
            body: nodes_view(body@),
        },
    }
}

/// The views of a sequence of nodes.
pub open spec fn nodes_view(ns: Seq<Node>) -> Seq<NodeV>
    decreases ns,
{
    if ns.len() == 0 {
        seq![]
    } else {
        nodes_view(ns.drop_last()).push(node_view(ns.last()))
    }
}

impl Node {
    /// A copy of this node and of everything under it.
    pub fn deep_copy(&self) -> (r: Node)
        ensures
            node_view(r) == node_view(*self),
        decreases self,
    {
        match self {
            Node::Text(t) => Node::Text(t.clone()),
            Node::Variable { path, filter } => Node::Variable {
                path: path.clone(),
                filter: match filter {
                    Some(f) => Some(f.clone()),
                    None => None,
                },
            },
            Node::Conditional { variable, negated, body, else_body } => {
                assert(decreases_to!(*self => self->Conditional_body));
                assert(decreases_to!(*self => self->Conditional_else_body));
                Node::Conditional {
                    variable: variable.clone(),
                    negated: *negated,
                    body: copy_nodes(body),
                    else_body: copy_nodes(else_body),
                }
            },
            Node::Loop { variable, body } => {
                assert(decreases_to!(*self => self->Loop_body));
                Node::Loop { variable: variable.clone(), body: copy_nodes(body) }
            },
        }
    }
}

/// Copies of a sequence of nodes.
pub fn copy_nodes(nodes: &Vec<Node>) -> (r: Vec<Node>)
    ensures
        nodes_view(r@) == nodes_view(nodes@),
    decreases nodes,
{
    let mut out: Vec<Node> = Vec::new();
    let mut k: usize = 0;
    while k < nodes.len()
        invariant
            k <= nodes@.len(),
            nodes_view(out@) == nodes_view(nodes@.take(k as int)),
            out@.len() == k,
        decreases nodes@.len() - k,
    {
        let ghost done = out@;
        assert(nodes@.take(k + 1).drop_last() =~= nodes@.take(k as int));
        assert(decreases_to!(*nodes => nodes@));
        assert(decreases_to!(nodes@ => nodes@[k as int]));
        let n = nodes[k].deep_copy();
        out.push(n);
        assert(out@.drop_last() =~= done);
        k = k + 1;
    }
    assert(nodes@.take(nodes@.len() as int) =~= nodes@);
    out
}

impl Clone for Node {
    fn clone(&self) -> (r: Node)
        ensures
            node_view(r) == node_view(*self),
    {
        self.deep_copy()
    }
}

/// Which closing tag a block being parsed waits for.
#[derive(Debug, Clone, Copy, PartialEq, Eq, Structural)]
pub enum Closing {
    /// The whole template: no closing tag.
    Top,
    /// The body of `{#if}`: ends at `{:else}` or `{/if}`.
    If,
    /// The `{:else}` part of `{#if}`: ends at `{/if}`.
    IfElse,
    /// The body of `{#each}`: ends at `{/each}`.
    Each,
}

/// The error for a block that the tokens end inside of.
pub open spec fn unclosed_error(c: Closing) -> ParseErrorV {
    match c {
        Closing::Top => ParseErrorV::UnmatchedBlock(seq![]),
        Closing::If => ParseErrorV::UnmatchedBlock("expected closing tag for {#if}"@),
        Closing::IfElse => ParseErrorV::UnmatchedBlock("expected closing tag for {#if_else_end}"@),
        Closing::Each => ParseErrorV::UnmatchedBlock("expected closing tag for {#each}"@),
    }
}

/// `n` in front of the nodes of a successful result.
pub open spec fn node_then(n: NodeV, r: Result<(Seq<NodeV>, int), ParseErrorV>) -> Result<
    (Seq<NodeV>, int),
    ParseErrorV,
> {
    match r {
        Ok((ns, j)) => Ok((seq![n] + ns, j)),
        Err(e) => Err(e),
    }
}

/// `ns` in front of the nodes of a successful result.
pub open spec fn nodes_then(ns: Seq<NodeV>, r: Result<(Seq<NodeV>, int), ParseErrorV>) -> Result<
    (Seq<NodeV>, int),
    ParseErrorV,
> {
    match r {
        Ok((ms, j)) => Ok((ns + ms, j)),
        Err(e) => Err(e),
    }
}

/// Whether token `t` ends a block that waits for `c`: `{:else}` or `{/if}`
/// for the body of an `{#if}`, `{/if}` for its `{:else}` part, `{/each}` for
/// a loop. Nothing ends the whole template but its end.
pub open spec fn ends_block(t: TokenV, c: Closing) -> bool {
    match c {
        Closing::Top => false,
        Closing::If => t is Else || t is CloseIf,
        Closing::IfElse => t is CloseIf,
        Closing::Each => t is CloseEach,
    }
}

/// The nodes of the block that starts at token `i` and waits for `c`, and
/// where it ends: the position of its closing tag (left for the caller to
/// read), or the end of the tokens for the whole template.
pub open spec fn parse_from(ts: Seq<TokenV>, i: int, c: Closing) -> Result<
    (Seq<NodeV>, int),
    ParseErrorV,
>
    decreases ts.len() - i,
{
    if i < 0 || i >= ts.len() {
        match c {
            Closing::Top => Ok((seq![], i)),
            _ => Err(unclosed_error(c)),
        }
    } else if ends_block(ts[i], c) {
        Ok((seq![], i))
    } else {
        match ts[i] {
            TokenV::Text(t) => node_then(NodeV::Text(t), parse_from(ts, i + 1, c)),
            TokenV::Variable(p, f) => node_then(
                NodeV::Variable { path: p, filter: f },
                parse_from(ts, i + 1, c),
            ),
            TokenV::OpenIf(v, negated) => match parse_from(ts, i + 1, Closing::If) {
                Err(e) => Err(e),
                Ok((body, j)) => if i < j < ts.len() {
                    if ts[j] is Else {
                        match parse_from(ts, j + 1, Closing::IfElse) {
                            Err(e) => Err(e),
                            Ok((else_body, k)) => if j < k < ts.len() {
                                node_then(
                                    NodeV::Conditional { variable: v, negated, body, else_body },
                                    parse_from(ts, k + 1, c),
                                )
                            } else {
                                Err(unclosed_error(c))
                            },
                        }
                    } else {
                        node_then(
                            NodeV::Conditional { variable: v, negated, body, else_body: seq![] },
                            parse_from(ts, j + 1, c),
                        )
                    }
                } else {
                    Err(unclosed_error(c))
                },
            },
            TokenV::OpenEach(v) => match parse_from(ts, i + 1, Closing::Each) {
                Err(e) => Err(e),
                Ok((body, j)) => if i < j < ts.len() {
                    node_then(NodeV::Loop { variable: v, body }, parse_from(ts, j + 1, c))
                } else {
                    Err(unclosed_error(c))
                },
            },
            TokenV::Else => Err(ParseErrorV::UnmatchedBlock("unexpected {:else} without matching {#if}"@)),
            TokenV::CloseIf => Err(ParseErrorV::UnmatchedBlock("unexpected {/if} without matching {#if}"@)),
            TokenV::CloseEach => Err(
                ParseErrorV::UnmatchedBlock("unexpected {/each} without matching {#each}"@),
            ),
        }
    }
}

/// A successful parse ends at or after its start: at the end of the tokens
/// for the whole template, and otherwise at a token that closes the block.
pub proof fn lemma_parse_from_end(ts: Seq<TokenV>, i: int, c: Closing)
    requires
        0 <= i <= ts.len(),
    ensures
        parse_from(ts, i, c) matches Ok((_, j)) ==> {
            &&& i <= j <= ts.len()
            &&& c == Closing::Top ==> j == ts.len()
            &&& c != Closing::Top ==> j < ts.len() && ends_block(ts[j], c)
        },
    decreases ts.len() - i,
{
    if i < ts.len() && !ends_block(ts[i], c) {
        match ts[i] {
            TokenV::Text(_) => lemma_parse_from_end(ts, i + 1, c),
            TokenV::Variable(_, _) => lemma_parse_from_end(ts, i + 1, c),
            TokenV::OpenIf(_, _) => {
                lemma_parse_from_end(ts, i + 1, Closing::If);
                if let Ok((_, j)) = parse_from(ts, i + 1, Closing::If) {
                    if j < ts.len() && ts[j] is Else {
                        lemma_parse_from_end(ts, j + 1, Closing::IfElse);
                        if let Ok((_, k)) = parse_from(ts, j + 1, Closing::IfElse) {
                            if k < ts.len() {
                                lemma_parse_from_end(ts, k + 1, c);
                            }
                        }
                    } else if j < ts.len() {
                        lemma_parse_from_end(ts, j + 1, c);
                    }
                }
            },
            TokenV::OpenEach(_) => {
                lemma_parse_from_end(ts, i + 1, Closing::Each);
                if let Ok((_, j)) = parse_from(ts, i + 1, Closing::Each) {
                    if j < ts.len() {
                        lemma_parse_from_end(ts, j + 1, c);
                    }
                }
            },
            _ => {},
        }
    }
}

/// Whether `t` closes a block that waits for `c`.
pub fn closes_block(t: &Token, c: Closing) -> (r: bool)
    ensures
        r == ends_block(t@, c),
{
    match c {
        Closing::Top => false,
        Closing::If => matches!(t, Token::Else) || matches!(t, Token::CloseIf),
        Closing::IfElse => matches!(t, Token::CloseIf),
        Closing::Each => matches!(t, Token::CloseEach),
    }
}

/// Builds the nodes of the block that starts at `tokens[start]` and waits for
/// `closing`, and returns them with the position where the block ends: that
/// of its closing tag, or the end of the tokens for the whole template.
pub fn parse_tokens(tokens: &Vec<Token>, start: usize, closing: Closing) -> (r: Result<
    (Vec<Node>, usize),
    ParseError,
>)
    requires
        start <= tokens@.len(),
    ensures
        match parse_from(tokens_view(tokens@), start as int, closing) {
            Ok((ns, j)) => r is Ok && nodes_view(r->Ok_0.0@) == ns && r->Ok_0.1 == j,
            Err(e) => r is Err && r->Err_0@ == e,
        },
    decreases tokens@.len() - start,
{
    let ghost ts = tokens_view(tokens@);
    let mut nodes: Vec<Node> = Vec::new();
    let mut i = start;
    while i < tokens.len()
        invariant
            start <= i <= tokens@.len(),
            ts == tokens_view(tokens@),
            parse_from(ts, start as int, closing) == nodes_then(
                nodes_view(nodes@),
                parse_from(ts, i as int, closing),
            ),
        decreases tokens@.len() - i,
    {
        let ghost before = nodes_view(nodes@);
        let ghost old_nodes = nodes@;
        assert(ts[i as int] == tokens@[i as int]@);
        if closes_block(&tokens[i], closing) {
            assert(nodes_view(nodes@) + seq![] =~= nodes_view(nodes@));
            return Ok((nodes, i));
        }
        match &tokens[i] {
            Token::Text(t) => {
                nodes.push(Node::Text(t.clone()));
                i = i + 1;
            },
            Token::Variable(path, filter) => {
                let f = match filter {
                    Some(f) => Some(f.clone()),
                    None => None,
                };
                nodes.push(Node::Variable { path: path.clone(), filter: f });
                i = i + 1;
            },
            Token::OpenIf(var, negated) => {
                let var = var.clone();
                let negated = *negated;
                proof {
                    lemma_parse_from_end(ts, i + 1, Closing::If);
                }
                match parse_tokens(tokens, i + 1, Closing::If) {
                    Err(e) => {
                        return Err(e);
                    },
                    Ok((body, j)) => {
                        assert(ts[j as int] == tokens@[j as int]@);
                        if matches!(tokens[j], Token::Else) {
                            proof {
                                lemma_parse_from_end(ts, j + 1, Closing::IfElse);
                            }
                            match parse_tokens(tokens, j + 1, Closing::IfElse) {
                                Err(e) => {
                                    return Err(e);
                                },
                                Ok((else_body, k)) => {
                                    nodes.push(
                                        Node::Conditional { variable: var, negated, body, else_body },
                                    );
                                    i = k + 1;
                                },
                            }
                        } else {
                            nodes.push(
                                Node::Conditional {
                                    variable: var,
                                    negated,
                                    body,
                                    else_body: Vec::new(),
                                },
                            );
                            i = j + 1;
                        }
                    },
                }
            },
            Token::OpenEach(var) => {
                let var = var.clone();
                proof {
                    lemma_parse_from_end(ts, i + 1, Closing::Each);
                }
                match parse_tokens(tokens, i + 1, Closing::Each) {
                    Err(e) => {
                        return Err(e);
                    },
                    Ok((body, j)) => {
                        nodes.push(Node::Loop { variable: var, body });
                        i = j + 1;
                    },
                }
            },
            Token::Else => {
                return Err(
                    ParseError::UnmatchedBlock(
                        String::from_str("unexpected {:else} without matching {#if}"),
                    ),
                );
            },
            Token::CloseIf => {
                return Err(
                    ParseError::UnmatchedBlock(
                        String::from_str("unexpected {/if} without matching {#if}"),
                    ),
                );
            },
            Token::CloseEach => {
                return Err(
                    ParseError::UnmatchedBlock(
                        String::from_str("unexpected {/each} without matching {#each}"),
                    ),
                );
            },
        }
        proof {
            let added = nodes@.last();
            assert(nodes@.drop_last() =~= old_nodes);
            assert(nodes_view(nodes@) == before.push(node_view(added)));
            match parse_from(ts, i as int, closing) {
                Ok((ms, j)) => {
                    assert(before + (seq![node_view(added)] + ms) =~= nodes_view(nodes@) + ms);
                },
                Err(_) => {},
            }
        }
    }
    match closing {
        Closing::Top => {
            assert(nodes_view(nodes@) + seq![] =~= nodes_view(nodes@));
            Ok((nodes, i))
        },
        Closing::If => Err(
            ParseError::UnmatchedBlock(String::from_str("expected closing tag for {#if}")),
        ),
        Closing::IfElse => Err(
            ParseError::UnmatchedBlock(String::from_str("expected closing tag for {#if_else_end}")),
        ),
        Closing::Each => Err(
            ParseError::UnmatchedBlock(String::from_str("expected closing tag for {#each}")),
        ),
    }
}

} // verus!
