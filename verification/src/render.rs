//! Rendering parsed nodes with data: variable lookup, filters, conditionals and loops.
use vstd::prelude::*;
use crate::error::{RenderError, RenderErrorV};
use crate::parser::{Node, NodeV, node_view, nodes_view};
use crate::text::{chars_of, split, split_on, string_of_range, strings_view, trim, trim_range};
use crate::value::{Value, ValueMap, display, kind_name, truthy};

verus! {

broadcast use vstd::string::group_string_axioms;

/// What `str::to_uppercase` gives for a text (Unicode upper-case mapping).
pub uninterp spec fn uppercase_of(s: Seq<char>) -> Seq<char>;

/// What `str::to_lowercase` gives for a text (Unicode lower-case mapping).
pub uninterp spec fn lowercase_of(s: Seq<char>) -> Seq<char>;

/// Calls `str::to_uppercase`; the contract claims only that the result is
/// `uppercase_of` the argument's text, a function of that text alone.
#[verifier::external_body]
fn upper_case(s: &str) -> (r: String)
    ensures
        r@ == uppercase_of(s@),
{
    s.to_uppercase()
}

/// Calls `str::to_lowercase`; the contract claims only that the result is
/// `lowercase_of` the argument's text, a function of that text alone.
#[verifier::external_body]
fn lower_case(s: &str) -> (r: String)
    ensures
        r@ == lowercase_of(s@),
{
    s.to_lowercase()
}

/// The value a reference option points to.
pub open spec fn deref_opt(o: Option<&Value>) -> Option<Value> {
    match o {
        Some(v) => Some(*v),
        None => None,
    }
}

/// The value reached by following `parts` through nested maps, starting in `m`.
pub open spec fn resolve_parts(parts: Seq<Seq<char>>, m: ValueMap) -> Option<Value>
    decreases parts.len(),
{
    if parts.len() == 0 || !m@.contains_key(parts[0]) {
        None
    } else if parts.len() == 1 {
        Some(m@[parts[0]])
    } else {
        match m@[parts[0]] {
            Value::Object(inner) => resolve_parts(parts.drop_first(), inner),
            _ => None,
        }
    }
}

/// The value a dotted path names: `.` is the current loop item; otherwise the
/// path is looked up in the current item when that is a map, then in the data.
pub open spec fn resolve(path: Seq<char>, data: ValueMap, cur: Option<Value>) -> Option<Value> {
    if path == seq!['.'] {
        cur
    } else {
        let parts = split(path, '.');
        match cur {
            Some(Value::Object(m)) => match resolve_parts(parts, m) {
                Some(v) => Some(v),
                None => resolve_parts(parts, data),
            },
            _ => resolve_parts(parts, data),
        }
    }
}

/// The text a filter makes of a shown value.
pub open spec fn filter_result(value: Seq<char>, filter: Seq<char>) -> Result<
    Seq<char>,
    RenderErrorV,
> {
    if filter == "upper"@ {
        Ok(uppercase_of(value))
    } else if filter == "lower"@ {
        Ok(lowercase_of(value))
    } else if filter == "trim"@ {
        Ok(trim(value))
    } else {
        Err(RenderErrorV::TypeError("unknown filter: "@ + filter))
    }
}

/// Whether a conditional shows its body.
pub open spec fn shows_body(variable: Seq<char>, negated: bool, data: ValueMap, cur: Option<Value>) -> bool {
    let t = match resolve(variable, data, cur) {
        Some(v) => truthy(v),
        None => false,
    };
    if negated {
        !t
    } else {
        t
    }
}

/// The output of a sequence of nodes, or the error of the first node that fails.
pub open spec fn render_seq(ns: Seq<NodeV>, data: ValueMap, cur: Option<Value>) -> Result<
    Seq<char>,
    RenderErrorV,
>
    decreases ns, 0nat,
{
    if ns.len() == 0 {
        Ok(seq![])
    } else {
        match render_seq(ns.drop_last(), data, cur) {
            Err(e) => Err(e),
            Ok(a) => match render_node(ns.last(), data, cur) {
                Err(e) => Err(e),
                Ok(b) => Ok(a + b),
            },
        }
    }
}

/// The output of one node.
pub open spec fn render_node(n: NodeV, data: ValueMap, cur: Option<Value>) -> Result<
    Seq<char>,
    RenderErrorV,
>
    decreases n, 0nat,
{
    match n {
        NodeV::Text(t) => Ok(t),
        NodeV::Variable { path, filter } => match resolve(path, data, cur) {
            None => Err(RenderErrorV::MissingVariable(path)),
            Some(v) => match filter {
                None => Ok(display(v)),
                Some(f) => filter_result(display(v), f),
            },
        },
        NodeV::Conditional { variable, negated, body, else_body } => if shows_body(
            variable,
            negated,
            data,
            cur,
        ) {
            render_seq(body, data, cur)
        } else {
            render_seq(else_body, data, cur)
        },
        NodeV::Loop { variable, body } => match resolve(variable, data, cur) {
            None => Err(RenderErrorV::MissingVariable(variable)),
            Some(Value::List(items)) => render_items(body, data, items@),
            Some(v) => Err(RenderErrorV::TypeError("expected list for #each, got "@ + kind_name(v))),
        },
    }
}

/// The output of a loop body once for each item, in order.
pub open spec fn render_items(body: Seq<NodeV>, data: ValueMap, items: Seq<Value>) -> Result<
    Seq<char>,
    RenderErrorV,
>
    decreases body, items.len(),
{
    if items.len() == 0 {
        Ok(seq![])
    } else {
        match render_items(body, data, items.drop_last()) {
            Err(e) => Err(e),
            Ok(a) => match render_seq(body, data, Some(items.last())) {
                Err(e) => Err(e),
                Ok(b) => Ok(a + b),
            },
        }
    }
}

/// The text that rendering a sequence of nodes writes: all of it when rendering
/// succeeds; otherwise the output of the nodes before the one that fails,
/// followed by what that node wrote before failing.
pub open spec fn written_seq(ns: Seq<NodeV>, data: ValueMap, cur: Option<Value>) -> Seq<char>
    decreases ns, 0nat,
{
    if ns.len() == 0 {
        seq![]
    } else {
        match render_seq(ns.drop_last(), data, cur) {
            Err(_) => written_seq(ns.drop_last(), data, cur),
            Ok(a) => a + written_node(ns.last(), data, cur),
        }
    }
}

/// The text that rendering one node writes. A variable writes all of its text
/// or nothing; a conditional writes what its chosen part writes; a loop writes
/// what its items write, and nothing when its value is missing or not a list.
pub open spec fn written_node(n: NodeV, data: ValueMap, cur: Option<Value>) -> Seq<char>
    decreases n, 0nat,
{
    match n {
        NodeV::Text(t) => t,
        NodeV::Variable { path, filter } => match render_node(n, data, cur) {
            Ok(o) => o,
            Err(_) => seq![],
        },
        NodeV::Conditional { variable, negated, body, else_body } => if shows_body(
            variable,
            negated,
            data,
            cur,
        ) {
            written_seq(body, data, cur)
        } else {
            written_seq(else_body, data, cur)
        },
        NodeV::Loop { variable, body } => match resolve(variable, data, cur) {
            Some(Value::List(items)) => written_items(body, data, items@),
            _ => seq![],
        },
    }
}

/// The text that a loop body writes over the items: the output for the items
/// before the first failing one, followed by what that item's body wrote.
pub open spec fn written_items(body: Seq<NodeV>, data: ValueMap, items: Seq<Value>) -> Seq<char>
    decreases body, items.len(),
{
    if items.len() == 0 {
        seq![]
    } else {
        match render_items(body, data, items.drop_last()) {
            Err(_) => written_items(body, data, items.drop_last()),
            Ok(a) => a + written_seq(body, data, Some(items.last())),
        }
    }
}

/// On success the text written is the output.
pub proof fn lemma_written_seq_ok(ns: Seq<NodeV>, data: ValueMap, cur: Option<Value>)
    ensures
        render_seq(ns, data, cur) matches Ok(o) ==> written_seq(ns, data, cur) == o,
    decreases ns, 0nat,
{
    if ns.len() > 0 {
        lemma_written_seq_ok(ns.drop_last(), data, cur);
        lemma_written_node_ok(ns.last(), data, cur);
    }
}

/// On success the text a node writes is its output.
pub proof fn lemma_written_node_ok(n: NodeV, data: ValueMap, cur: Option<Value>)
    ensures
        render_node(n, data, cur) matches Ok(o) ==> written_node(n, data, cur) == o,
    decreases n, 0nat,
{
    match n {
        NodeV::Conditional { variable, negated, body, else_body } => {
            lemma_written_seq_ok(body, data, cur);
            lemma_written_seq_ok(else_body, data, cur);
        },
        NodeV::Loop { variable, body } => {
            if let Some(Value::List(items)) = resolve(variable, data, cur) {
                lemma_written_items_ok(body, data, items@);
            }
        },
        _ => {},
    }
}

/// On success the text a loop writes is its output.
pub proof fn lemma_written_items_ok(body: Seq<NodeV>, data: ValueMap, items: Seq<Value>)
    ensures
        render_items(body, data, items) matches Ok(o) ==> written_items(body, data, items) == o,
    decreases body, items.len(),
{
    if items.len() > 0 {
        lemma_written_items_ok(body, data, items.drop_last());
        lemma_written_seq_ok(body, data, Some(items.last()));
    }
}

/// After a failing prefix, the nodes that follow write nothing more.
pub proof fn lemma_written_seq_prefix_err(ns: Seq<NodeV>, i: int, data: ValueMap, cur: Option<Value>)
    requires
        0 <= i <= ns.len(),
        render_seq(ns.take(i), data, cur) is Err,
    ensures
        written_seq(ns, data, cur) == written_seq(ns.take(i), data, cur),
    decreases ns.len() - i,
{
    if i == ns.len() {
        assert(ns.take(i) =~= ns);
    } else {
        assert(ns.drop_last().take(i) =~= ns.take(i));
        lemma_render_seq_prefix_err(ns.drop_last(), i, data, cur);
        lemma_written_seq_prefix_err(ns.drop_last(), i, data, cur);
    }
}

/// After a failing item, the items that follow write nothing more.
pub proof fn lemma_written_items_prefix_err(body: Seq<NodeV>, data: ValueMap, items: Seq<Value>, i: int)
    requires
        0 <= i <= items.len(),
        render_items(body, data, items.take(i)) is Err,
    ensures
        written_items(body, data, items) == written_items(body, data, items.take(i)),
    decreases items.len() - i,
{
    if i == items.len() {
        assert(items.take(i) =~= items);
    } else {
        assert(items.drop_last().take(i) =~= items.take(i));
        lemma_render_items_prefix_err(body, data, items.drop_last(), i);
        lemma_written_items_prefix_err(body, data, items.drop_last(), i);
    }
}

/// `nodes_view` keeps the length and views each node.
pub proof fn lemma_nodes_view(ns: Seq<Node>)
    ensures
        nodes_view(ns).len() == ns.len(),
        forall|i: int| 0 <= i < ns.len() ==> #[trigger] nodes_view(ns)[i] == node_view(ns[i]),
    decreases ns.len(),
{
    if ns.len() > 0 {
        lemma_nodes_view(ns.drop_last());
        assert forall|i: int| 0 <= i < ns.len() implies #[trigger] nodes_view(ns)[i] == node_view(
            ns[i],
        ) by {
            if i < ns.len() - 1 {
                assert(ns.drop_last()[i] == ns[i]);
            }
        }
    }
}

/// An error in a prefix of the nodes is the error of the whole sequence.
pub proof fn lemma_render_seq_prefix_err(ns: Seq<NodeV>, i: int, data: ValueMap, cur: Option<Value>)
    requires
        0 <= i <= ns.len(),
        render_seq(ns.take(i), data, cur) is Err,
    ensures
        render_seq(ns, data, cur) == render_seq(ns.take(i), data, cur),
    decreases ns.len() - i,
{
    if i == ns.len() {
        assert(ns.take(i) =~= ns);
    } else {
        assert(ns.drop_last().take(i) =~= ns.take(i));
        lemma_render_seq_prefix_err(ns.drop_last(), i, data, cur);
    }
}

/// An error for a prefix of the items is the error of the whole loop.
pub proof fn lemma_render_items_prefix_err(body: Seq<NodeV>, data: ValueMap, items: Seq<Value>, i: int)
    requires
        0 <= i <= items.len(),
        render_items(body, data, items.take(i)) is Err,
    ensures
        render_items(body, data, items) == render_items(body, data, items.take(i)),
    decreases items.len() - i,
{
    if i == items.len() {
        assert(items.take(i) =~= items);
    } else {
        assert(items.drop_last().take(i) =~= items.take(i));
        lemma_render_items_prefix_err(body, data, items.drop_last(), i);
    }
}

/// Follows `parts[k..]` through nested maps, starting in `map`.
pub fn resolve_from_map<'a>(parts: &Vec<String>, k: usize, map: &'a ValueMap) -> (r: Option<
    &'a Value,
>)
    requires
        k <= parts@.len(),
    ensures
        deref_opt(r) == resolve_parts(strings_view(parts@).skip(k as int), *map),
    decreases parts@.len() - k,
{
    let ghost ps = strings_view(parts@).skip(k as int);
    if k >= parts.len() {
        return None;
    }
    assert(ps[0] == parts@[k as int]@);
    let val = match map.get(parts[k].as_str()) {
        Some(v) => v,
        None => {
            return None;
        },
    };
    if k + 1 == parts.len() {
        return Some(val);
    }
    match val {
        Value::Object(inner) => {
            assert(ps.drop_first() =~= strings_view(parts@).skip(k + 1));
            resolve_from_map(parts, k + 1, inner)
        },
        _ => None,
    }
}

/// The value a dotted path names, with the current loop item if there is one.
pub fn resolve_path<'a>(path: &str, data: &'a ValueMap, current_item: Option<&'a Value>) -> (r:
    Option<&'a Value>)
    ensures
        deref_opt(r) == resolve(path@, *data, deref_opt(current_item)),
{
    let pv = chars_of(path);
    if pv.len() == 1 && pv[0] == '.' {
        assert(path@ =~= seq!['.']);
        return current_item;
    }
    assert(path@ != seq!['.'] ==> !(pv@.len() == 1 && pv@[0] == '.'));
    let parts = split_on(path, '.');
    assert(strings_view(parts@).skip(0) =~= strings_view(parts@));
    if let Some(Value::Object(map)) = current_item {
        if let Some(val) = resolve_from_map(&parts, 0, map) {
            return Some(val);
        }
    }
    resolve_from_map(&parts, 0, data)
}

/// Applies the filter named `filter` to a shown value.
pub fn apply_filter(value: &str, filter: &str) -> (r: Result<String, RenderError>)
    ensures
        match filter_result(value@, filter@) {
            Ok(s) => r is Ok && r->Ok_0@ == s,
            Err(e) => r is Err && r->Err_0@ == e,
        },
{
    let f = String::from_str(filter);
    if f == String::from_str("upper") {
        Ok(upper_case(value))
    } else if f == String::from_str("lower") {
        Ok(lower_case(value))
    } else if f == String::from_str("trim") {
        let v = chars_of(value);
        let (a, b) = trim_range(&v, 0, v.len());
        assert(v@.subrange(0, v@.len() as int) =~= v@);
        Ok(string_of_range(&v, a, b))
    } else {
        let mut msg = String::from_str("unknown filter: ");
        msg.append(filter);
        Err(RenderError::TypeError(msg))
    }
}

/// Renders one node, appending its output.
pub fn render_node_into(
    node: &Node,
    data: &ValueMap,
    current_item: Option<&Value>,
    output: &mut String,
) -> (r: Result<(), RenderError>)
    ensures
        match render_node(node_view(*node), *data, deref_opt(current_item)) {
            Ok(o) => r is Ok && final(output)@ == old(output)@ + o,
            Err(e) => r is Err && r->Err_0@ == e,
        },
        final(output)@ == old(output)@ + written_node(
            node_view(*node),
            *data,
            deref_opt(current_item),
        ),
    decreases *node,
{
    let ghost cur = deref_opt(current_item);
    proof {
        lemma_written_node_ok(node_view(*node), *data, cur);
    }
    match node {
        Node::Text(t) => {
            output.append(t.as_str());
            Ok(())
        },
        Node::Variable { path, filter } => {
            let val = match resolve_path(path.as_str(), data, current_item) {
                Some(v) => v,
                None => {
                    return Err(RenderError::MissingVariable(path.clone()));
                },
            };
            let rendered = val.display_string();
            let rendered = match filter {
                Some(f) => match apply_filter(rendered.as_str(), f.as_str()) {
                    Ok(s) => s,
                    Err(e) => {
                        return Err(e);
                    },
                },
                None => rendered,
            };
            output.append(rendered.as_str());
            Ok(())
        },
        Node::Conditional { variable, negated, body, else_body } => {
            let val = resolve_path(variable.as_str(), data, current_item);
            let truthy = match val {
                Some(v) => v.is_truthy(),
                None => false,
            };
            let should_render = if *negated {
                !truthy
            } else {
                truthy
            };
            if should_render {
                assert(decreases_to!(*node => node->Conditional_body));
                render_nodes(body, data, current_item, output)
            } else if else_body.len() > 0 {
                assert(decreases_to!(*node => node->Conditional_else_body));
                render_nodes(else_body, data, current_item, output)
            } else {
                assert(nodes_view(else_body@) =~= Seq::<NodeV>::empty());
                assert(output@ + Seq::<char>::empty() =~= output@);
                Ok(())
            }
        },
        Node::Loop { variable, body } => {
            let val = match resolve_path(variable.as_str(), data, current_item) {
                Some(v) => v,
                None => {
                    return Err(RenderError::MissingVariable(variable.clone()));
                },
            };
            match val {
                Value::List(items) => {
                    let ghost bv = nodes_view(body@);
                    let ghost start = output@;
                    let mut k: usize = 0;
                    while k < items.len()
                        invariant
                            k <= items@.len(),
                            bv == nodes_view(body@),
                            cur == deref_opt(current_item),
                            *node == (Node::Loop { variable: *variable, body: *body }),
                            render_node(node_view(*node), *data, cur) == render_items(
                                bv,
                                *data,
                                items@,
                            ),
                            written_node(node_view(*node), *data, cur) == written_items(
                                bv,
                                *data,
                                items@,
                            ),
                            start == old(output)@,
                            render_items(bv, *data, items@.take(k as int)) matches Ok(done)
                                && output@ == start + done,
                        decreases items@.len() - k,
                    {
                        let ghost pre = items@.take(k as int);
                        let ghost done = render_items(bv, *data, pre)->Ok_0;
                        assert(items@.take(k + 1).drop_last() =~= pre);
                        assert(items@.take(k + 1).last() == items@[k as int]);
                        assert(decreases_to!(*node => node->Loop_body));
                        match render_nodes(body, data, Some(&items[k]), output) {
                            Ok(()) => {},
                            Err(e) => {
                                proof {
                                    assert(render_seq(bv, *data, Some(items@[k as int])) == Err::<Seq<char>, RenderErrorV>(e@));
                                    assert(render_items(bv, *data, items@.take(k + 1)) == Err::<Seq<char>, RenderErrorV>(e@));
                                    lemma_render_items_prefix_err(bv, *data, items@, k + 1);
                                    lemma_written_items_prefix_err(bv, *data, items@, k + 1);
                                    lemma_written_items_ok(bv, *data, pre);
                                    assert(written_items(bv, *data, items@.take(k + 1)) == done
                                        + written_seq(bv, *data, Some(items@[k as int])));
                                    assert(output@ =~= start + (done + written_seq(
                                        bv,
                                        *data,
                                        Some(items@[k as int]),
                                    )));
                                }
                                return Err(e);
                            },
                        }
                        let ghost b = render_seq(bv, *data, Some(items@[k as int]))->Ok_0;
                        assert(output@ =~= start + (done + b));
                        k = k + 1;
                    }
                    assert(items@.take(items@.len() as int) =~= items@);
                    Ok(())
                },
                _ => {
                    let mut msg = String::from_str("expected list for #each, got ");
                    let kind = val.kind_name();
                    msg.append(kind.as_str());
                    Err(RenderError::TypeError(msg))
                },
            }
        },
    }
}

/// Renders a sequence of nodes, appending their output.
pub fn render_nodes(
    nodes: &Vec<Node>,
    data: &ValueMap,
    current_item: Option<&Value>,
    output: &mut String,
) -> (r: Result<(), RenderError>)
    ensures
        match render_seq(nodes_view(nodes@), *data, deref_opt(current_item)) {
            Ok(o) => r is Ok && final(output)@ == old(output)@ + o,
            Err(e) => r is Err && r->Err_0@ == e,
        },
        final(output)@ == old(output)@ + written_seq(
            nodes_view(nodes@),
            *data,
            deref_opt(current_item),
        ),
    decreases nodes@,
{
    let ghost nv = nodes_view(nodes@);
    let ghost start = output@;
    proof {
        lemma_nodes_view(nodes@);
        lemma_written_seq_ok(nv, *data, deref_opt(current_item));
    }
    let mut i: usize = 0;
    while i < nodes.len()
        invariant
            i <= nodes@.len(),
            nv == nodes_view(nodes@),
            nv.len() == nodes@.len(),
            start == old(output)@,
            forall|j: int| 0 <= j < nodes@.len() ==> #[trigger] nv[j] == node_view(nodes@[j]),
            render_seq(nv.take(i as int), *data, deref_opt(current_item)) matches Ok(done)
                && output@ == start + done,
        decreases nodes@.len() - i,
    {
        let ghost pre = nv.take(i as int);
        assert(nv.take(i + 1).drop_last() =~= pre);
        assert(nv.take(i + 1).last() == node_view(nodes@[i as int]));
        assert(decreases_to!(nodes@ => nodes@[i as int]));
        match render_node_into(&nodes[i], data, current_item, output) {
            Ok(()) => {},
            Err(e) => {
                proof {
                    lemma_render_seq_prefix_err(nv, i + 1, *data, deref_opt(current_item));
                    lemma_written_seq_prefix_err(nv, i + 1, *data, deref_opt(current_item));
                    let done = render_seq(pre, *data, deref_opt(current_item))->Ok_0;
                    lemma_written_seq_ok(pre, *data, deref_opt(current_item));
                    assert(written_seq(nv.take(i + 1), *data, deref_opt(current_item)) == done
                        + written_node(nv[i as int], *data, deref_opt(current_item)));
                    assert(output@ =~= start + (done + written_node(
                        nv[i as int],
                        *data,
                        deref_opt(current_item),
                    )));
                }
                return Err(e);
            },
        }
        i = i + 1;
    }
    assert(nv.take(nodes@.len() as int) =~= nv);
    Ok(())
}

} // verus!
