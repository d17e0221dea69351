//! Properties of the template language as a whole, proved over the
//! specifications that `Template::parse` and `Template::render` follow.
use vstd::prelude::*;
use crate::error::{ParseErrorV, RenderErrorV};
use crate::lexer::{
    TokenV, classify_tag, kw_close_each, kw_close_if, kw_each, kw_else, kw_if, lex, lex_from,
    text_run,
};
use crate::parser::{Closing, NodeV, parse_from};
use crate::render::{
    filter_result, lowercase_of, render_items, render_node, render_seq, resolve, resolve_parts,
    uppercase_of,
};
use crate::template::{parse_template, render_template};
use crate::text::{is_ws, split, starts_with, trim};
use crate::value::{
    Value, ValueMap, decimal_int, decimal_nat, display, display_list, int_as_double_shown,
    kind_name, round_to_53_bits, same_value, same_values, truthy, value_eq, values_eq,
};

verus! {

/// `s` holds neither `{` nor `}`.
pub open spec fn brace_free(s: Seq<char>) -> bool {
    forall|i: int| 0 <= i < s.len() ==> s[i] != '{' && s[i] != '}'
}

/// Two outputs one after the other, or the first error.
pub open spec fn output_then(
    x: Result<Seq<char>, RenderErrorV>,
    y: Result<Seq<char>, RenderErrorV>,
) -> Result<Seq<char>, RenderErrorV> {
    match x {
        Err(e) => Err(e),
        Ok(a) => match y {
            Err(e) => Err(e),
            Ok(b) => Ok(a + b),
        },
    }
}

/// Over a stretch without braces, a text run copies the characters.
proof fn lemma_text_run_segment(s: Seq<char>, i: int, k: int)
    requires
        0 <= i <= k <= s.len(),
        forall|j: int| i <= j < k ==> s[j] != '{' && s[j] != '}',
    ensures
        text_run(s, i).0 == s.subrange(i, k) + text_run(s, k).0,
        text_run(s, i).1 == text_run(s, k).1,
    decreases k - i,
{
    if i < k {
        lemma_text_run_segment(s, i + 1, k);
        assert(seq![s[i]] + (s.subrange(i + 1, k) + text_run(s, k).0) =~= s.subrange(i, k)
            + text_run(s, k).0);
    } else {
        assert(s.subrange(i, k) + text_run(s, k).0 =~= text_run(s, k).0);
    }
}

/// A template that is one run of text parses to one text node (none when empty).
proof fn lemma_single_run(s: Seq<char>, t: Seq<char>)
    requires
        text_run(s, 0) == (t, s.len() as int),
    ensures
        parse_template(s) == Ok::<Seq<NodeV>, crate::error::ParseErrorV>(
            if t.len() > 0 {
                seq![NodeV::Text(t)]
            } else {
                seq![]
            },
        ),
{
    let ts = lex(s)->Ok_0;
    assert(lex_from(s, 0) is Ok);
    if t.len() > 0 {
        assert(ts == seq![crate::lexer::TokenV::Text(t)]);
        assert(parse_from(ts, 1, Closing::Top) == Ok::<(Seq<NodeV>, int), crate::error::ParseErrorV>(
            (seq![], 1),
        ));
        assert(seq![NodeV::Text(t)] + Seq::<NodeV>::empty() =~= seq![NodeV::Text(t)]);
    } else {
        assert(ts.len() == 0);
    }
}

/// The nodes of one run of text render to that text.
proof fn lemma_render_text_node(t: Seq<char>, data: ValueMap)
    ensures
        render_template(
            if t.len() > 0 {
                seq![NodeV::Text(t)]
            } else {
                seq![]
            },
            data,
        ) == Ok::<Seq<char>, RenderErrorV>(t),
{
    if t.len() > 0 {
        let ns = seq![NodeV::Text(t)];
        assert(ns.drop_last() =~= Seq::<NodeV>::empty());
        assert(ns.last() == NodeV::Text(t));
        assert(render_seq(ns.drop_last(), data, None) == Ok::<Seq<char>, RenderErrorV>(seq![]));
        assert(render_node(ns.last(), data, None) == Ok::<Seq<char>, RenderErrorV>(t));
        assert(render_seq(ns, data, None) == Ok::<Seq<char>, RenderErrorV>(Seq::<char>::empty() + t));
        assert(Seq::<char>::empty() + t =~= t);
    } else {
        assert(t =~= Seq::<char>::empty());
    }
}

/// Text without braces is left as it is: it parses, and renders to itself
/// whatever the data.
pub proof fn law_plain_text_renders_itself(s: Seq<char>, data: ValueMap)
    requires
        brace_free(s),
    ensures
        parse_template(s) matches Ok(ns) && render_template(ns, data) == Ok::<
            Seq<char>,
            RenderErrorV,
        >(s),
{
    lemma_text_run_segment(s, 0, s.len() as int);
    assert(s.subrange(0, s.len() as int) + Seq::<char>::empty() =~= s);
    lemma_single_run(s, s);
    lemma_render_text_node(s, data);
}

/// `{{` stands for a literal `{` between plain text.
pub proof fn law_double_open_brace_escapes(a: Seq<char>, b: Seq<char>, data: ValueMap)
    requires
        brace_free(a),
        brace_free(b),
    ensures
        parse_template(a + seq!['{', '{'] + b) matches Ok(ns) && render_template(ns, data) == Ok::<
            Seq<char>,
            RenderErrorV,
        >(a + seq!['{'] + b),
{
    let s = a + seq!['{', '{'] + b;
    let k = a.len() as int;
    assert forall|j: int| 0 <= j < k implies s[j] != '{' && s[j] != '}' by {
        assert(s[j] == a[j]);
    }
    assert forall|j: int| k + 2 <= j < s.len() implies s[j] != '{' && s[j] != '}' by {
        assert(s[j] == b[j - k - 2]);
    }
    lemma_text_run_segment(s, 0, k);
    lemma_text_run_segment(s, k + 2, s.len() as int);
    assert(s[k] == '{' && s[k + 1] == '{');
    assert(s.subrange(k + 2, s.len() as int) =~= b);
    assert(s.subrange(0, k) =~= a);
    let t = a + seq!['{'] + b;
    assert(text_run(s, k).0 =~= seq!['{'] + (b + Seq::<char>::empty()));
    assert(text_run(s, 0).0 =~= t);
    lemma_single_run(s, t);
    lemma_render_text_node(t, data);
}

/// `}}` stands for a literal `}` between plain text.
pub proof fn law_double_close_brace_escapes(a: Seq<char>, b: Seq<char>, data: ValueMap)
    requires
        brace_free(a),
        brace_free(b),
    ensures
        parse_template(a + seq!['}', '}'] + b) matches Ok(ns) && render_template(ns, data) == Ok::<
            Seq<char>,
            RenderErrorV,
        >(a + seq!['}'] + b),
{
    let s = a + seq!['}', '}'] + b;
    let k = a.len() as int;
    assert forall|j: int| 0 <= j < k implies s[j] != '{' && s[j] != '}' by {
        assert(s[j] == a[j]);
    }
    assert forall|j: int| k + 2 <= j < s.len() implies s[j] != '{' && s[j] != '}' by {
        assert(s[j] == b[j - k - 2]);
    }
    lemma_text_run_segment(s, 0, k);
    lemma_text_run_segment(s, k + 2, s.len() as int);
    assert(s[k] == '}' && s[k + 1] == '}');
    assert(s.subrange(k + 2, s.len() as int) =~= b);
    assert(s.subrange(0, k) =~= a);
    let t = a + seq!['}'] + b;
    assert(text_run(s, k).0 =~= seq!['}'] + (b + Seq::<char>::empty()));
    assert(text_run(s, 0).0 =~= t);
    lemma_single_run(s, t);
    lemma_render_text_node(t, data);
}

/// Rendering a sequence of nodes is rendering its two parts one after the
/// other; the first error met is the result.
pub proof fn law_render_concat(a: Seq<NodeV>, b: Seq<NodeV>, data: ValueMap, cur: Option<Value>)
    ensures
        render_seq(a + b, data, cur) == output_then(render_seq(a, data, cur), render_seq(b, data, cur)),
    decreases b.len(),
{
    if b.len() == 0 {
        assert(a + b =~= a);
        if let Ok(x) = render_seq(a, data, cur) {
            assert(x + Seq::<char>::empty() =~= x);
        }
    } else {
        law_render_concat(a, b.drop_last(), data, cur);
        assert((a + b).drop_last() =~= a + b.drop_last());
        assert((a + b).last() == b.last());
        match (render_seq(a, data, cur), render_seq(b.drop_last(), data, cur), render_node(b.last(), data, cur)) {
            (Ok(x), Ok(y), Ok(z)) => {
                assert(x + y + z =~= x + (y + z));
            },
            _ => {},
        }
    }
}

/// `{#if !v}A{:else}B{/if}` renders as `{#if v}B{:else}A{/if}`.
pub proof fn law_negation_swaps_branches(
    v: Seq<char>,
    a: Seq<NodeV>,
    b: Seq<NodeV>,
    data: ValueMap,
    cur: Option<Value>,
)
    ensures
        render_node(NodeV::Conditional { variable: v, negated: true, body: a, else_body: b }, data, cur)
            == render_node(
            NodeV::Conditional { variable: v, negated: false, body: b, else_body: a },
            data,
            cur,
        ),
{
}

/// A conditional on a name that resolves to nothing is false: it shows its
/// `{:else}` part, and negated it shows its body.
pub proof fn law_missing_condition_is_false(
    v: Seq<char>,
    a: Seq<NodeV>,
    b: Seq<NodeV>,
    data: ValueMap,
    cur: Option<Value>,
)
    requires
        resolve(v, data, cur) is None,
    ensures
        render_node(NodeV::Conditional { variable: v, negated: false, body: a, else_body: b }, data, cur)
            == render_seq(b, data, cur),
        render_node(NodeV::Conditional { variable: v, negated: true, body: a, else_body: b }, data, cur)
            == render_seq(a, data, cur),
{
}

/// A conditional shows its body exactly when its value is truthy.
pub proof fn law_condition_follows_truthiness(
    v: Seq<char>,
    a: Seq<NodeV>,
    b: Seq<NodeV>,
    data: ValueMap,
    cur: Option<Value>,
    x: Value,
)
    requires
        resolve(v, data, cur) == Some(x),
    ensures
        render_node(NodeV::Conditional { variable: v, negated: false, body: a, else_body: b }, data, cur)
            == (if truthy(x) {
            render_seq(a, data, cur)
        } else {
            render_seq(b, data, cur)
        }),
{
}

/// A loop over a one-item list renders its body once, with that item as the
/// current one.
pub proof fn law_each_over_one_item(
    v: Seq<char>,
    body: Seq<NodeV>,
    data: ValueMap,
    cur: Option<Value>,
    items: Vec<Value>,
    x: Value,
)
    requires
        resolve(v, data, cur) == Some(Value::List(items)),
        items@ == seq![x],
    ensures
        render_node(NodeV::Loop { variable: v, body }, data, cur) == render_seq(body, data, Some(x)),
{
    assert(items@.drop_last() =~= Seq::<Value>::empty());
    assert(items@.last() == x);
    assert(crate::render::render_items(body, data, items@.drop_last()) == Ok::<
        Seq<char>,
        RenderErrorV,
    >(seq![]));
    assert(render_node(NodeV::Loop { variable: v, body }, data, cur)
        == crate::render::render_items(body, data, items@));
    if let Ok(o) = render_seq(body, data, Some(x)) {
        assert(Seq::<char>::empty() + o =~= o);
    }
}

/// A variable renders as the value it names, shown as text.
pub proof fn law_variable_shows_value(
    path: Seq<char>,
    data: ValueMap,
    cur: Option<Value>,
    x: Value,
)
    requires
        resolve(path, data, cur) == Some(x),
    ensures
        render_seq(seq![NodeV::Variable { path, filter: None }], data, cur) == Ok::<
            Seq<char>,
            RenderErrorV,
        >(display(x)),
{
    let ns = seq![NodeV::Variable { path, filter: None }];
    assert(ns.drop_last() =~= Seq::<NodeV>::empty());
    assert(ns.last() == NodeV::Variable { path, filter: None });
    assert(render_seq(ns.drop_last(), data, cur) == Ok::<Seq<char>, RenderErrorV>(seq![]));
    assert(render_node(ns.last(), data, cur) == Ok::<Seq<char>, RenderErrorV>(display(x)));
    assert(render_seq(ns, data, cur) == Ok::<Seq<char>, RenderErrorV>(
        Seq::<char>::empty() + display(x),
    ));
    assert(Seq::<char>::empty() + display(x) =~= display(x));
}

/// A text without `sep` splits into itself alone.
proof fn lemma_split_without_sep(s: Seq<char>, sep: char)
    requires
        forall|i: int| 0 <= i < s.len() ==> s[i] != sep,
    ensures
        split(s, sep) == seq![s],
    decreases s.len(),
{
    if s.len() > 0 {
        let d = s.drop_last();
        assert forall|i: int| 0 <= i < d.len() implies d[i] != sep by {
            assert(d[i] == s[i]);
        }
        lemma_split_without_sep(d, sep);
        assert(s[s.len() - 1] != sep);
        assert(d.push(s.last()) =~= s);
        let p = split(d, sep);
        assert(p.len() == 1);
        assert(p.update(0, p.last().push(s.last())) =~= seq![s]);
    } else {
        assert(s =~= Seq::<char>::empty());
    }
}

/// Appending text without `sep` extends the last piece.
proof fn lemma_split_append(p: Seq<char>, b: Seq<char>, sep: char)
    requires
        forall|i: int| 0 <= i < b.len() ==> b[i] != sep,
    ensures
        split(p + b, sep) == split(p, sep).update(
            split(p, sep).len() - 1,
            split(p, sep).last() + b,
        ),
    decreases b.len(),
{
    crate::text::lemma_split_nonempty(p, sep);
    let sp = split(p, sep);
    if b.len() == 0 {
        assert(p + b =~= p);
        assert(sp.last() + b =~= sp.last());
        assert(sp.update(sp.len() - 1, sp.last()) =~= sp);
    } else {
        let d = b.drop_last();
        assert forall|i: int| 0 <= i < d.len() implies d[i] != sep by {
            assert(d[i] == b[i]);
        }
        lemma_split_append(p, d, sep);
        assert((p + b).drop_last() =~= p + d);
        assert((p + b).last() == b[b.len() - 1]);
        assert(b[b.len() - 1] != sep);
        let q = split(p + d, sep);
        assert(q == sp.update(sp.len() - 1, sp.last() + d));
        assert(q.len() == sp.len());
        assert(q.last() == sp.last() + d);
        assert((sp.last() + d).push(b.last()) =~= sp.last() + b);
        assert(split(p + b, sep) == q.update(q.len() - 1, q.last().push(b.last())));
        assert(q.update(q.len() - 1, q.last().push(b.last())) =~= sp.update(
            sp.len() - 1,
            sp.last() + b,
        ));
    }
}

/// A dotted path `a.b` names the entry `b` of the map stored under `a`.
pub proof fn law_dot_path_reaches_nested_entry(
    a: Seq<char>,
    b: Seq<char>,
    data: ValueMap,
    inner: ValueMap,
)
    requires
        a.len() > 0,
        forall|i: int| 0 <= i < a.len() ==> a[i] != '.',
        forall|i: int| 0 <= i < b.len() ==> b[i] != '.',
        data@.contains_key(a),
        data@[a] == Value::Object(inner),
    ensures
        resolve(a + seq!['.'] + b, data, None) == (if inner@.contains_key(b) {
            Some(inner@[b])
        } else {
            None
        }),
{
    let path = a + seq!['.'] + b;
    assert(path.len() > 1);
    assert(path != seq!['.']);
    lemma_split_without_sep(a, '.');
    let p = a + seq!['.'];
    assert(p.drop_last() =~= a);
    assert(split(p, '.') =~= seq![a, Seq::<char>::empty()]);
    lemma_split_append(p, b, '.');
    assert(split(path, '.') =~= seq![a, b]);
    let parts = seq![a, b];
    assert(parts.drop_first() =~= seq![b]);
    assert(parts[0] == a);
    assert(resolve(path, data, None) == resolve_parts(parts, data));
    assert(resolve_parts(parts, data) == resolve_parts(seq![b], inner));
    assert(seq![b][0] == b);
}

/// Trimming twice is trimming once.
pub proof fn law_trim_idempotent(s: Seq<char>)
    ensures
        trim(trim(s)) == trim(s),
        trim(s).len() > 0 ==> !is_ws(trim(s)[0]) && !is_ws(trim(s).last()),
    decreases s.len(),
{
    if s.len() > 0 && is_ws(s[0]) {
        law_trim_idempotent(s.drop_first());
    } else if s.len() > 0 && is_ws(s.last()) {
        law_trim_idempotent(s.drop_last());
    }
}

/// A map gives back what was last stored under a name, and storing under one
/// name leaves the others as they were.
pub proof fn law_map_read_after_write(
    before: ValueMap,
    after: ValueMap,
    k: Seq<char>,
    v: Value,
    other: Seq<char>,
)
    requires
        after@ == before@.insert(k, v),
        other != k,
    ensures
        after@.contains_key(k),
        after@[k] == v,
        after@.contains_key(other) == before@.contains_key(other),
        before@.contains_key(other) ==> after@[other] == before@[other],
{
}

/// Each value is of exactly one kind.
pub proof fn law_value_has_one_kind(v: Value)
    ensures
        (v is String) as int + (v is Number) as int + (v is Bool) as int + (v is List) as int + (
        v is Object) as int == 1,
{
}

/// A magnitude that already fits in 53 bits is kept as it is.
proof fn lemma_round_small(m: nat)
    requires
        m <= 9007199254740992,
    ensures
        round_to_53_bits(m, 1) == m,
{
    if m == 9007199254740992 {
        assert(round_to_53_bits(m, 1) == round_to_53_bits(m, 2));
        assert(m / 2 == 4503599627370496 && m % 2 == 0);
    } else {
        assert(m / 1 == m && m % 1 == 0) by (nonlinear_arith);
    }
}

/// An integer of at most 53 bits is shown exactly.
pub proof fn law_small_integers_shown_exactly(n: int)
    requires
        -9007199254740992 <= n <= 9007199254740992,
    ensures
        int_as_double_shown(n) == n,
{
    let m: nat = if n < 0 { (-n) as nat } else { n as nat };
    lemma_round_small(m);
}

/// Decimal text is `"0"` exactly for zero.
proof fn lemma_decimal_zero(n: int)
    ensures
        (decimal_int(n) == seq!['0']) == (n == 0),
{
    if n < 0 {
        let d = decimal_int(n);
        assert(d[0] == '-');
        assert(d != seq!['0']) by {
            if d == seq!['0'] {
                assert(d[0] == '0');
            }
        }
    } else if n >= 10 {
        let m = n as nat;
        lemma_decimal_nonempty(m / 10);
        assert(decimal_nat(m).len() >= 2);
    } else {
        let c = (48 + n) as char;
        assert(decimal_nat(n as nat) == seq![c]);
        if n != 0 {
            assert(c as u32 != '0' as u32);
            assert(seq![c][0] != seq!['0'][0]);
        } else {
            assert(c == '0');
        }
    }
}

proof fn lemma_decimal_nonempty(n: nat)
    ensures
        decimal_nat(n).len() >= 1,
    decreases n,
{
    if n >= 10 {
        lemma_decimal_nonempty(n / 10);
    }
}

/// Rounding a non-zero magnitude never gives zero.
proof fn lemma_round_nonzero(m: nat, p: nat)
    requires
        1 <= p <= m,
    ensures
        round_to_53_bits(m, p) >= 1,
    decreases m - p,
{
    if m < 9007199254740992 * p {
        let q = m / p;
        assert(q >= 1) by (nonlinear_arith)
            requires
                q == m / p,
                1 <= p <= m,
        ;
        assert(q * p >= 1) by (nonlinear_arith)
            requires
                q >= 1,
                p >= 1,
        ;
        assert((q + 1) * p >= 1) by (nonlinear_arith)
            requires
                q >= 1,
                p >= 1,
        ;
    } else {
        lemma_round_nonzero(m, 2 * p);
    }
}

/// A number made from an integer is falsy exactly when the integer is zero.
pub proof fn law_integer_truthy_iff_nonzero(n: i64)
    ensures
        (decimal_int(int_as_double_shown(n as int)) != seq!['0']) == (n != 0),
{
    let m: nat = if n < 0 { (-n) as nat } else { n as nat };
    if n != 0 {
        lemma_round_nonzero(m, 1);
    }
    lemma_decimal_zero(int_as_double_shown(n as int));
}


/// Whether the block tags from token `i` on close the blocks in `open` (innermost
/// last) and every block they open, each `{:else}` standing directly in an
/// `{#if}` block.
pub open spec fn nested_from(ts: Seq<TokenV>, i: int, open: Seq<Closing>) -> bool
    decreases ts.len() - i,
{
    if i < 0 || i >= ts.len() {
        open.len() == 0
    } else {
        match ts[i] {
            TokenV::Text(_) => nested_from(ts, i + 1, open),
            TokenV::Variable(_, _) => nested_from(ts, i + 1, open),
            TokenV::OpenIf(_, _) => nested_from(ts, i + 1, open.push(Closing::If)),
            TokenV::Else => open.len() > 0 && open.last() == Closing::If && nested_from(
                ts,
                i + 1,
                open.drop_last().push(Closing::IfElse),
            ),
            TokenV::CloseIf => open.len() > 0 && (open.last() == Closing::If || open.last()
                == Closing::IfElse) && nested_from(ts, i + 1, open.drop_last()),
            TokenV::OpenEach(_) => nested_from(ts, i + 1, open.push(Closing::Each)),
            TokenV::CloseEach => open.len() > 0 && open.last() == Closing::Each && nested_from(
                ts,
                i + 1,
                open.drop_last(),
            ),
        }
    }
}

/// The blocks open while parsing a block that waits for `c` inside the blocks `s`.
pub open spec fn open_blocks(c: Closing, s: Seq<Closing>) -> Seq<Closing> {
    if c == Closing::Top {
        s
    } else {
        s.push(c)
    }
}

/// How the parse of one block relates to the nesting of the tags: it fails
/// exactly when they do not nest, and otherwise stops at the block's closing
/// tag with the same blocks still open.
proof fn lemma_parse_nesting(ts: Seq<TokenV>, i: int, c: Closing, s: Seq<Closing>)
    requires
        0 <= i <= ts.len(),
        c == Closing::Top ==> s.len() == 0,
    ensures
        match parse_from(ts, i, c) {
            Err(e) => !nested_from(ts, i, open_blocks(c, s)) && e is UnmatchedBlock,
            Ok((_, j)) => i <= j <= ts.len() && (if c == Closing::Top {
                j == ts.len() && nested_from(ts, i, s)
            } else {
                nested_from(ts, i, s.push(c)) == nested_from(ts, j, s.push(c))
            }),
        },
    decreases ts.len() - i,
{
    let f = open_blocks(c, s);
    crate::parser::lemma_parse_from_end(ts, i, c);
    if i < ts.len() && !crate::parser::ends_block(ts[i], c) {
        match ts[i] {
            TokenV::Text(_) => {
                lemma_parse_nesting(ts, i + 1, c, s);
            },
            TokenV::Variable(_, _) => {
                lemma_parse_nesting(ts, i + 1, c, s);
            },
            TokenV::OpenIf(_, _) => {
                lemma_parse_nesting(ts, i + 1, Closing::If, f);
                crate::parser::lemma_parse_from_end(ts, i + 1, Closing::If);
                if let Ok((_, j)) = parse_from(ts, i + 1, Closing::If) {
                    assert(f.push(Closing::If).drop_last() =~= f);
                    if ts[j] is Else {
                        assert(f.push(Closing::If).drop_last().push(Closing::IfElse) =~= f.push(
                            Closing::IfElse,
                        ));
                        lemma_parse_nesting(ts, j + 1, Closing::IfElse, f);
                        crate::parser::lemma_parse_from_end(ts, j + 1, Closing::IfElse);
                        if let Ok((_, k)) = parse_from(ts, j + 1, Closing::IfElse) {
                            assert(f.push(Closing::IfElse).drop_last() =~= f);
                            lemma_parse_nesting(ts, k + 1, c, s);
                        }
                    } else {
                        lemma_parse_nesting(ts, j + 1, c, s);
                    }
                }
            },
            TokenV::OpenEach(_) => {
                lemma_parse_nesting(ts, i + 1, Closing::Each, f);
                crate::parser::lemma_parse_from_end(ts, i + 1, Closing::Each);
                if let Ok((_, j)) = parse_from(ts, i + 1, Closing::Each) {
                    assert(f.push(Closing::Each).drop_last() =~= f);
                    lemma_parse_nesting(ts, j + 1, c, s);
                }
            },
            _ => {},
        }
    }
}

/// Whether, reading on from `i` (a text run, then a tag, and so on), some tag
/// (a single `{` up to the next `}`) has no `}` or holds only whitespace.
pub open spec fn has_bad_tag(s: Seq<char>, i: int) -> bool
    decreases s.len() - i,
{
    let e = text_run(s, i).1;
    if !(i <= e && e < s.len()) {
        false
    } else {
        match crate::text::first_index(s.subrange(e + 1, s.len() as int), '}') {
            None => true,
            Some(d) => trim(s.subrange(e + 1, e + 1 + d)).len() == 0 || (0 <= d && e + d + 2
                <= s.len() && has_bad_tag(s, e + d + 2)),
        }
    }
}

/// Tokenizing from `i` fails exactly when a bad tag follows, and then with
/// `InvalidSyntax`.
pub proof fn lemma_lex_error_is_syntax(s: Seq<char>, i: int)
    ensures
        (lex_from(s, i) is Err) == has_bad_tag(s, i),
        lex_from(s, i) matches Err(e) ==> e is InvalidSyntax,
    decreases s.len() - i,
{
    let run = text_run(s, i);
    let e = run.1;
    if i <= e && e < s.len() {
        if let Some(d) = crate::text::first_index(s.subrange(e + 1, s.len() as int), '}') {
            let content = s.subrange(e + 1, e + 1 + d);
            let tag = trim(content);
            if tag.len() > 0 {
                assert(classify_tag(content) is Ok) by {
                    if !starts_with(tag, kw_if()) && tag != kw_close_if() && tag != kw_else()
                        && !starts_with(tag, kw_each()) && tag != kw_close_each() {
                        crate::text::lemma_first_index(tag, '|');
                    }
                }
            } else {
                assert(!starts_with(tag, kw_if()));
                assert(!starts_with(tag, kw_each()));
                assert(tag != kw_close_if());
                assert(tag != kw_else());
                assert(tag != kw_close_each());
            }
            if 0 <= d && e + d + 2 <= s.len() {
                lemma_lex_error_is_syntax(s, e + d + 2);
            }
        }
    }
}

/// Tokenizing a template fails exactly when one of its tags has no closing
/// `}` or holds only whitespace, and always with `InvalidSyntax`.
pub proof fn law_tokenize_fails_exactly_on_bad_tags(s: Seq<char>)
    ensures
        (lex(s) is Err) == has_bad_tag(s, 0),
        lex(s) matches Err(e) ==> e is InvalidSyntax,
{
    lemma_lex_error_is_syntax(s, 0);
}

/// A template that tokenizes parses exactly when its block tags nest (each
/// block closed by its own kind of tag, at most one `{:else}` and only directly
/// inside an `{#if}`), and otherwise fails with `UnmatchedBlock`; a template
/// that does not tokenize fails with `InvalidSyntax`.
pub proof fn law_parse_fails_exactly_on_bad_nesting(s: Seq<char>)
    ensures
        lex(s) is Err ==> parse_template(s) is Err && parse_template(s)->Err_0 is InvalidSyntax,
        lex(s) is Ok ==> {
            &&& (parse_template(s) is Ok <==> nested_from(lex(s)->Ok_0, 0, seq![]))
            &&& (parse_template(s) is Err ==> parse_template(s)->Err_0 is UnmatchedBlock)
        },
{
    lemma_lex_error_is_syntax(s, 0);
    if let Ok(ts) = lex(s) {
        lemma_parse_nesting(ts, 0, Closing::Top, seq![]);
    }
}

/// A copy of a value is shown, tested and named exactly as the value is.
pub proof fn law_copy_behaves_the_same(a: Value, b: Value)
    requires
        same_value(a, b),
    ensures
        display(a) == display(b),
        truthy(a) == truthy(b),
        kind_name(a) == kind_name(b),
    decreases a,
{
    if let Value::List(xs) = a {
        lemma_same_values_display(xs@, b->List_0@);
    }
}

/// Lists with the same contents are shown alike.
proof fn lemma_same_values_display(xs: Seq<Value>, ys: Seq<Value>)
    requires
        same_values(xs, ys),
    ensures
        display_list(xs) == display_list(ys),
    decreases xs,
{
    if xs.len() > 0 {
        lemma_same_values_display(xs.drop_last(), ys.drop_last());
        law_copy_behaves_the_same(xs.last(), ys.last());
        if xs.len() == 1 {
            assert(xs[0] == xs.last());
            assert(ys[0] == ys.last());
        }
    }
}


/// A loop body rendered over the items `a` then `b` gives the output for `a`
/// followed by the output for `b`; the first error met is the result.
pub proof fn law_each_renders_items_in_order(
    body: Seq<NodeV>,
    data: ValueMap,
    a: Seq<Value>,
    b: Seq<Value>,
)
    ensures
        render_items(body, data, a + b) == output_then(
            render_items(body, data, a),
            render_items(body, data, b),
        ),
    decreases b.len(),
{
    if b.len() == 0 {
        assert(a + b =~= a);
        if let Ok(x) = render_items(body, data, a) {
            assert(x + Seq::<char>::empty() =~= x);
        }
    } else {
        law_each_renders_items_in_order(body, data, a, b.drop_last());
        assert((a + b).drop_last() =~= a + b.drop_last());
        assert((a + b).last() == b.last());
        match (
            render_items(body, data, a),
            render_items(body, data, b.drop_last()),
            render_seq(body, data, Some(b.last())),
        ) {
            (Ok(x), Ok(y), Ok(z)) => {
                assert(x + y + z =~= x + (y + z));
            },
            _ => {},
        }
    }
}


/// `s` with each `{` written `{{` and each `}` written `}}`.
pub open spec fn escape_braces(s: Seq<char>) -> Seq<char>
    decreases s.len(),
{
    if s.len() == 0 {
        seq![]
    } else {
        let c = s[0];
        (if c == '{' || c == '}' {
            seq![c, c]
        } else {
            seq![c]
        }) + escape_braces(s.drop_first())
    }
}

/// A text run inside `y` reads the same when `x` stands in front of `y`.
proof fn lemma_text_run_shift(x: Seq<char>, y: Seq<char>, j: int)
    requires
        0 <= j <= y.len(),
    ensures
        text_run(x + y, x.len() + j).0 == text_run(y, j).0,
        text_run(x + y, x.len() + j).1 == text_run(y, j).1 + x.len(),
    decreases y.len() - j,
{
    let s = x + y;
    let i = x.len() + j;
    if j < y.len() {
        assert(s[i] == y[j]);
        if j + 1 < y.len() {
            assert(s[i + 1] == y[j + 1]);
        }
        if y[j] == '{' {
            if j + 1 < y.len() && y[j + 1] == '{' {
                lemma_text_run_shift(x, y, j + 2);
            }
        } else if y[j] == '}' && j + 1 < y.len() && y[j + 1] == '}' {
            lemma_text_run_shift(x, y, j + 2);
        } else {
            lemma_text_run_shift(x, y, j + 1);
        }
    }
}

/// The text run of escaped text is the whole text, read back unescaped.
proof fn lemma_text_run_escaped(s: Seq<char>)
    ensures
        text_run(escape_braces(s), 0) == (s, escape_braces(s).len() as int),
    decreases s.len(),
{
    let e = escape_braces(s);
    if s.len() == 0 {
        assert(e =~= Seq::<char>::empty());
    } else {
        let c = s[0];
        let rest = s.drop_first();
        lemma_text_run_escaped(rest);
        let x: Seq<char> = if c == '{' || c == '}' {
            seq![c, c]
        } else {
            seq![c]
        };
        let er = escape_braces(rest);
        assert(e == x + er);
        lemma_text_run_shift(x, er, 0);
        assert(x + er == e);
        assert(e[0] == c);
        if c == '{' || c == '}' {
            assert(e[1] == c);
        }
        assert(seq![c] + rest =~= s);
    }
}

/// Any text, with its braces doubled, parses and renders back to itself
/// whatever the data.
pub proof fn law_escaped_text_renders_itself(s: Seq<char>, data: ValueMap)
    ensures
        parse_template(escape_braces(s)) matches Ok(ns) && render_template(ns, data) == Ok::<
            Seq<char>,
            RenderErrorV,
        >(s),
{
    lemma_text_run_escaped(s);
    lemma_single_run(escape_braces(s), s);
    lemma_render_text_node(s, data);
}


/// The body of a block parses as a template of its own: a block that waits
/// for `c` (`{:else}` or `{/if}` for the body of an `{#if}`, `{/if}` for its
/// `{:else}` part, `{/each}` for a loop) and parses from `i` ends at its
/// closing tag `k`; the tokens from `i` up to `k` parse at the top level to
/// the same nodes; and the tokens after `k` play no part in the parse.
pub proof fn law_block_body_parses_alone(ts: Seq<TokenV>, i: int, c: Closing)
    requires
        0 <= i <= ts.len(),
        c != Closing::Top,
        parse_from(ts, i, c) is Ok,
    ensures
        ({
            let (ns, k) = parse_from(ts, i, c)->Ok_0;
            &&& i <= k < ts.len()
            &&& crate::parser::ends_block(ts[k], c)
            &&& parse_from(ts.take(k), i, Closing::Top) == Ok::<
                (Seq<NodeV>, int),
                ParseErrorV,
            >((ns, k))
            &&& forall|m: int|
                k < m <= ts.len() ==> #[trigger] parse_from(ts.take(m), i, c) == Ok::<
                    (Seq<NodeV>, int),
                    ParseErrorV,
                >((ns, k))
        }),
    decreases ts.len() - i,
{
    crate::parser::lemma_parse_from_end(ts, i, c);
    let (ns, k) = parse_from(ts, i, c)->Ok_0;
    if crate::parser::ends_block(ts[i], c) {
        assert forall|m: int| i < m <= ts.len() implies #[trigger] parse_from(ts.take(m), i, c)
            == Ok::<(Seq<NodeV>, int), ParseErrorV>((ns, k)) by {
            assert(ts.take(m)[i] == ts[i]);
        }
    } else {
        match ts[i] {
            TokenV::Text(_) | TokenV::Variable(_, _) => {
                law_block_body_parses_alone(ts, i + 1, c);
                let (rest, k0) = parse_from(ts, i + 1, c)->Ok_0;
                assert(k0 == k);
                assert(ns.drop_first() =~= rest);
                assert(ts.take(k)[i] == ts[i]);
                assert forall|m: int| k < m <= ts.len() implies #[trigger] parse_from(
                    ts.take(m),
                    i,
                    c,
                ) == Ok::<(Seq<NodeV>, int), ParseErrorV>((ns, k)) by {
                    assert(ts.take(m)[i] == ts[i]);
                    assert(parse_from(ts.take(m), i + 1, c) == Ok::<(Seq<NodeV>, int), ParseErrorV>(
                        (rest, k),
                    ));
                }
            },
            TokenV::OpenIf(v, neg) => {
                crate::parser::lemma_parse_from_end(ts, i + 1, Closing::If);
                let (body, j1) = parse_from(ts, i + 1, Closing::If)->Ok_0;
                law_block_body_parses_alone(ts, i + 1, Closing::If);
                if ts[j1] is Else {
                    crate::parser::lemma_parse_from_end(ts, j1 + 1, Closing::IfElse);
                    let (eb, j2) = parse_from(ts, j1 + 1, Closing::IfElse)->Ok_0;
                    law_block_body_parses_alone(ts, j1 + 1, Closing::IfElse);
                    law_block_body_parses_alone(ts, j2 + 1, c);
                    assert(parse_from(ts.take(k), i + 1, Closing::If) == Ok::<
                        (Seq<NodeV>, int),
                        ParseErrorV,
                    >((body, j1)));
                    assert(parse_from(ts.take(k), j1 + 1, Closing::IfElse) == Ok::<
                        (Seq<NodeV>, int),
                        ParseErrorV,
                    >((eb, j2)));
                    assert(ts.take(k)[i] == ts[i]);
                    assert(ts.take(k)[j1] == ts[j1]);
                    assert forall|m: int| k < m <= ts.len() implies #[trigger] parse_from(
                        ts.take(m),
                        i,
                        c,
                    ) == Ok::<(Seq<NodeV>, int), ParseErrorV>((ns, k)) by {
                        assert(ts.take(m)[i] == ts[i]);
                        assert(ts.take(m)[j1] == ts[j1]);
                        assert(parse_from(ts.take(m), i + 1, Closing::If) == Ok::<
                            (Seq<NodeV>, int),
                            ParseErrorV,
                        >((body, j1)));
                        assert(parse_from(ts.take(m), j1 + 1, Closing::IfElse) == Ok::<
                            (Seq<NodeV>, int),
                            ParseErrorV,
                        >((eb, j2)));
                        assert(parse_from(ts.take(m), j2 + 1, c) == parse_from(ts, j2 + 1, c));
                    }
                } else {
                    law_block_body_parses_alone(ts, j1 + 1, c);
                    assert(parse_from(ts.take(k), i + 1, Closing::If) == Ok::<
                        (Seq<NodeV>, int),
                        ParseErrorV,
                    >((body, j1)));
                    assert(ts.take(k)[i] == ts[i]);
                    assert(ts.take(k)[j1] == ts[j1]);
                    assert forall|m: int| k < m <= ts.len() implies #[trigger] parse_from(
                        ts.take(m),
                        i,
                        c,
                    ) == Ok::<(Seq<NodeV>, int), ParseErrorV>((ns, k)) by {
                        assert(ts.take(m)[i] == ts[i]);
                        assert(ts.take(m)[j1] == ts[j1]);
                        assert(parse_from(ts.take(m), i + 1, Closing::If) == Ok::<
                            (Seq<NodeV>, int),
                            ParseErrorV,
                        >((body, j1)));
                        assert(parse_from(ts.take(m), j1 + 1, c) == parse_from(ts, j1 + 1, c));
                    }
                }
            },
            TokenV::OpenEach(v) => {
                crate::parser::lemma_parse_from_end(ts, i + 1, Closing::Each);
                let (body, j1) = parse_from(ts, i + 1, Closing::Each)->Ok_0;
                law_block_body_parses_alone(ts, i + 1, Closing::Each);
                law_block_body_parses_alone(ts, j1 + 1, c);
                assert(parse_from(ts.take(k), i + 1, Closing::Each) == Ok::<
                    (Seq<NodeV>, int),
                    ParseErrorV,
                >((body, j1)));
                assert(ts.take(k)[i] == ts[i]);
                assert forall|m: int| k < m <= ts.len() implies #[trigger] parse_from(
                    ts.take(m),
                    i,
                    c,
                ) == Ok::<(Seq<NodeV>, int), ParseErrorV>((ns, k)) by {
                    assert(ts.take(m)[i] == ts[i]);
                    assert(parse_from(ts.take(m), i + 1, Closing::Each) == Ok::<
                        (Seq<NodeV>, int),
                        ParseErrorV,
                    >((body, j1)));
                    assert(parse_from(ts.take(m), j1 + 1, c) == parse_from(ts, j1 + 1, c));
                }
            },
            _ => {},
        }
    }
}


/// A name without dots, looked up while the current loop item is a map, is
/// the item's own entry when the item has one, whatever the data holds; only
/// otherwise is it the data's entry.
pub proof fn law_loop_item_entries_come_first(p: Seq<char>, data: ValueMap, item: ValueMap)
    requires
        p != seq!['.'],
        forall|i: int| 0 <= i < p.len() ==> p[i] != '.',
    ensures
        resolve(p, data, Some(Value::Object(item))) == (if item@.contains_key(p) {
            Some(item@[p])
        } else if data@.contains_key(p) {
            Some(data@[p])
        } else {
            None
        }),
{
    lemma_split_without_sep(p, '.');
    assert(seq![p][0] == p);
}

/// Outside a map item, a name without dots is the data's entry, if any.
pub proof fn law_names_outside_map_items_come_from_data(
    p: Seq<char>,
    data: ValueMap,
    cur: Option<Value>,
)
    requires
        p != seq!['.'],
        forall|i: int| 0 <= i < p.len() ==> p[i] != '.',
        !(cur matches Some(Value::Object(_))),
    ensures
        resolve(p, data, cur) == (if data@.contains_key(p) {
            Some(data@[p])
        } else {
            None
        }),
{
    lemma_split_without_sep(p, '.');
    assert(seq![p][0] == p);
}

/// `.` names the current loop item, and nothing outside a loop.
pub proof fn law_dot_is_current_item(data: ValueMap, cur: Option<Value>)
    ensures
        resolve(seq!['.'], data, cur) == cur,
{
}

/// A number made from an integer counts as true in `{#if}` exactly when the
/// integer is not zero, negative integers included.
pub proof fn law_number_from_integer_truthy_iff_nonzero(n: i64, v: Value)
    requires
        v is Number,
        v->Number_0@ == decimal_int(int_as_double_shown(n as int)),
    ensures
        truthy(v) == (n != 0),
{
    law_integer_truthy_iff_nonzero(n);
}

/// A tag's token depends only on its content with the outer whitespace removed.
pub proof fn law_tag_reads_trimmed_content(c1: Seq<char>, c2: Seq<char>)
    requires
        trim(c1) == trim(c2),
    ensures
        classify_tag(c1) == classify_tag(c2),
{
}

/// The names and filters a tag gives have no whitespace around them.
pub proof fn law_tag_names_are_trimmed(c: Seq<char>)
    ensures
        match classify_tag(c) {
            Ok(TokenV::Variable(p, f)) => trim(p) == p && (f matches Some(g) ==> trim(g) == g),
            Ok(TokenV::OpenIf(v, _)) => trim(v) == v,
            Ok(TokenV::OpenEach(v)) => trim(v) == v,
            _ => true,
        },
{
    let tag = trim(c);
    law_trim_idempotent(c);
    law_trim_idempotent(tag.skip(4));
    law_trim_idempotent(tag.skip(6));
    let rest = trim(tag.skip(4));
    law_trim_idempotent(rest.skip(1));
    if let Some(k) = crate::text::first_index(tag, '|') {
        law_trim_idempotent(tag.take(k));
        law_trim_idempotent(tag.skip(k + 1));
    }
}

/// `{x|upper}` and `{x|lower}` show the upper- and lower-case mapping of the
/// whole text that `x` is shown as.
pub proof fn law_case_filters_map_whole_value(
    path: Seq<char>,
    data: ValueMap,
    cur: Option<Value>,
    x: Value,
)
    requires
        resolve(path, data, cur) == Some(x),
    ensures
        render_node(NodeV::Variable { path, filter: Some("upper"@) }, data, cur) == Ok::<
            Seq<char>,
            RenderErrorV,
        >(uppercase_of(display(x))),
        render_node(NodeV::Variable { path, filter: Some("lower"@) }, data, cur) == Ok::<
            Seq<char>,
            RenderErrorV,
        >(lowercase_of(display(x))),
{
    reveal_strlit("upper");
    reveal_strlit("lower");
    assert("lower"@ != "upper"@) by {
        assert("lower"@[0] != "upper"@[0]);
    }
}

/// Where the text that trimming keeps starts and ends.
proof fn lemma_trim_bounds(s: Seq<char>) -> (r: (int, int))
    ensures
        0 <= r.0 <= r.1 <= s.len(),
        trim(s) == s.subrange(r.0, r.1),
        forall|i: int| 0 <= i < r.0 ==> is_ws(#[trigger] s[i]),
        forall|i: int| r.1 <= i < s.len() ==> is_ws(#[trigger] s[i]),
    decreases s.len(),
{
    if s.len() > 0 && is_ws(s[0]) {
        let (a, b) = lemma_trim_bounds(s.drop_first());
        assert(s.drop_first().subrange(a, b) =~= s.subrange(a + 1, b + 1));
        assert forall|i: int| 0 <= i < a + 1 implies is_ws(#[trigger] s[i]) by {
            if i > 0 {
                assert(s[i] == s.drop_first()[i - 1]);
            }
        }
        assert forall|i: int| b + 1 <= i < s.len() implies is_ws(#[trigger] s[i]) by {
            assert(s[i] == s.drop_first()[i - 1]);
        }
        (a + 1, b + 1)
    } else if s.len() > 0 && is_ws(s.last()) {
        let (a, b) = lemma_trim_bounds(s.drop_last());
        assert(s.drop_last().subrange(a, b) =~= s.subrange(a, b));
        assert forall|i: int| 0 <= i < a implies is_ws(#[trigger] s[i]) by {
            assert(s[i] == s.drop_last()[i]);
        }
        assert forall|i: int| b <= i < s.len() implies is_ws(#[trigger] s[i]) by {
            if i < s.len() - 1 {
                assert(s[i] == s.drop_last()[i]);
            }
        }
        (a, b)
    } else {
        assert(s.subrange(0, s.len() as int) =~= s);
        (0, s.len() as int)
    }
}

/// `{x|trim}` keeps a middle stretch of the shown text: everything before and
/// after it is whitespace, and it neither starts nor ends with whitespace.
pub proof fn law_trim_filter_strips_outer_whitespace(v: Seq<char>)
    ensures
        filter_result(v, "trim"@) matches Ok(r) && exists|a: int, b: int|
            {
                &&& 0 <= a <= b <= v.len()
                &&& r == v.subrange(a, b)
                &&& forall|i: int| 0 <= i < a ==> is_ws(#[trigger] v[i])
                &&& forall|i: int| b <= i < v.len() ==> is_ws(#[trigger] v[i])
            },
        filter_result(v, "trim"@) matches Ok(r) && (r.len() > 0 ==> !is_ws(r[0]) && !is_ws(
            r.last(),
        )),
{
    reveal_strlit("trim");
    reveal_strlit("upper");
    reveal_strlit("lower");
    assert("trim"@ != "upper"@) by {
        assert("trim"@[0] != "upper"@[0]);
    }
    assert("trim"@ != "lower"@) by {
        assert("trim"@[0] != "lower"@[0]);
    }
    let (a, b) = lemma_trim_bounds(v);
    law_trim_idempotent(v);
}

/// Two values equal item by item make equal lists.
proof fn lemma_values_eq_items(xs: Seq<Value>, ys: Seq<Value>)
    ensures
        values_eq(xs, ys) <==> (xs.len() == ys.len() && forall|i: int|
            0 <= i < xs.len() ==> value_eq(#[trigger] xs[i], ys[i])),
    decreases xs.len(),
{
    if xs.len() > 0 && xs.len() == ys.len() {
        lemma_values_eq_items(xs.drop_last(), ys.drop_last());
        if forall|i: int| 0 <= i < xs.len() ==> value_eq(#[trigger] xs[i], ys[i]) {
            assert forall|i: int| 0 <= i < xs.drop_last().len() implies value_eq(
                #[trigger] xs.drop_last()[i],
                ys.drop_last()[i],
            ) by {
                assert(xs.drop_last()[i] == xs[i]);
                assert(ys.drop_last()[i] == ys[i]);
                assert(value_eq(xs[i], ys[i]));
            }
            assert(value_eq(xs[xs.len() - 1], ys[ys.len() - 1]));
        }
        if values_eq(xs, ys) {
            assert forall|i: int| 0 <= i < xs.len() implies value_eq(#[trigger] xs[i], ys[i]) by {
                if i < xs.len() - 1 {
                    assert(xs.drop_last()[i] == xs[i]);
                    assert(ys.drop_last()[i] == ys[i]);
                }
            }
        }
    }
}

/// Two lists are equal exactly when they have the same length and are equal
/// item by item.
pub proof fn law_lists_equal_item_by_item(xs: Vec<Value>, ys: Vec<Value>)
    ensures
        value_eq(Value::List(xs), Value::List(ys)) <==> (xs@.len() == ys@.len() && forall|i: int|
            0 <= i < xs@.len() ==> value_eq(#[trigger] xs@[i], ys@[i])),
{
    lemma_values_eq_items(xs@, ys@);
}


/// A dotted path `a.b` looked up while the current loop item is a map reaches
/// the item's nested entry when the item has it, whatever the data holds.
pub proof fn law_loop_item_paths_come_first(
    a: Seq<char>,
    b: Seq<char>,
    data: ValueMap,
    item: ValueMap,
    inner: ValueMap,
)
    requires
        a.len() > 0,
        forall|i: int| 0 <= i < a.len() ==> a[i] != '.',
        forall|i: int| 0 <= i < b.len() ==> b[i] != '.',
        item@.contains_key(a),
        item@[a] == Value::Object(inner),
        inner@.contains_key(b),
    ensures
        resolve(a + seq!['.'] + b, data, Some(Value::Object(item))) == Some(inner@[b]),
{
    let path = a + seq!['.'] + b;
    assert(path.len() > 1);
    assert(path != seq!['.']);
    lemma_split_without_sep(a, '.');
    let p = a + seq!['.'];
    assert(p.drop_last() =~= a);
    assert(split(p, '.') =~= seq![a, Seq::<char>::empty()]);
    lemma_split_append(p, b, '.');
    assert(split(path, '.') =~= seq![a, b]);
    let parts = seq![a, b];
    assert(parts.drop_first() =~= seq![b]);
    assert(parts[0] == a);
    assert(resolve_parts(parts, item) == resolve_parts(seq![b], inner));
    assert(seq![b][0] == b);
}

/// Truthiness by kind: a text or a list when it is not empty, a boolean when
/// it is `true`, a number when its text is not `"0"` (it is zero), any map.
pub proof fn law_truthiness_by_kind(v: Value)
    ensures
        v matches Value::String(s) ==> truthy(v) == (s@.len() > 0),
        v matches Value::Number(n) ==> truthy(v) == (n@ != seq!['0']),
        v matches Value::Bool(b) ==> truthy(v) == b,
        v matches Value::List(items) ==> truthy(v) == (items@.len() > 0),
        v is Object ==> truthy(v),
{
}

/// A filter other than `upper`, `lower` and `trim` is a type error that names it.
pub proof fn law_unknown_filter_is_type_error(v: Seq<char>, f: Seq<char>)
    requires
        f != "upper"@,
        f != "lower"@,
        f != "trim"@,
    ensures
        filter_result(v, f) == Err::<Seq<char>, RenderErrorV>(
            RenderErrorV::TypeError("unknown filter: "@ + f),
        ),
{
}

/// Texts are equal exactly when they hold the same characters.
pub proof fn law_texts_equal_by_characters(x: String, y: String)
    ensures
        value_eq(Value::String(x), Value::String(y)) == (x@ == y@),
{
}

} // verus!
