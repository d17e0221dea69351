//! The values that a template is rendered with.
use vstd::prelude::*;
use crate::text::push_char;

verus! {

broadcast use vstd::string::group_string_axioms;

/// The decimal digit character for `d < 10`.
pub open spec fn digit_char(d: nat) -> char {
    (48 + d) as char
}

/// Decimal notation of a natural number.
pub open spec fn decimal_nat(n: nat) -> Seq<char>
    decreases n,
{
    if n < 10 {
        seq![digit_char(n)]
    } else {
        decimal_nat(n / 10).push(digit_char(n % 10))
    }
}

/// Decimal notation of an integer, with a leading `-` when negative.
pub open spec fn decimal_int(n: int) -> Seq<char> {
    if n < 0 {
        seq!['-'] + decimal_nat((-n) as nat)
    } else {
        decimal_nat(n as nat)
    }
}

/// `m` rounded to the nearest multiple of the first power of two `p` (counting up
/// from the given one) at which the multiple needs at most 53 significant bits;
/// a tie goes to the even multiple. This is the magnitude `m as f64` holds.
pub open spec fn round_to_53_bits(m: nat, p: nat) -> nat
    decreases m - p,
{
    if p == 0 {
        m
    } else if m < 9007199254740992 * p {
        let q = m / p;
        let r = m % p;
        if 2 * r > p || (2 * r == p && q % 2 == 1) {
            ((q + 1) * p) as nat
        } else {
            (q * p) as nat
        }
    } else {
        round_to_53_bits(m, 2 * p)
    }
}

/// The integer that `Display` shows for `n as f64`: `n` rounded to a double,
/// and read back through `i64`, which saturates at `i64::MAX`.
pub open spec fn int_as_double_shown(n: int) -> int {
    let m: nat = if n < 0 { (-n) as nat } else { n as nat };
    let r = round_to_53_bits(m, 1);
    let signed: int = if n < 0 { -r } else { r as int };
    if signed > i64::MAX { i64::MAX as int } else { signed }
}

/// A number, held as the decimal text that rendering shows for it.
///
/// The text is `"0"` exactly when the number is zero.
#[derive(Debug)]
pub struct Number {
    text: String,
}

impl View for Number {
    type V = Seq<char>;

    closed spec fn view(&self) -> Seq<char> {
        self.text@
    }
}

/// Appends the decimal digits of `n`.
fn push_decimal(s: &mut String, n: u128)
    ensures
        final(s)@ == old(s)@ + decimal_nat(n as nat),
    decreases n,
{
    if n >= 10 {
        push_decimal(s, n / 10);
    }
    let d = (n % 10) as u8;
    let c = (48u8 + d) as char;
    assert(c == digit_char((n % 10) as nat));
    push_char(s, c);
}

impl Number {
    /// The number `n` holds once converted to a double, as rendering shows it.
    pub fn from_i64(n: i64) -> (r: Number)
        ensures
            r@ == decimal_int(int_as_double_shown(n as int)),
    {
        let m: u128 = if n < 0 {
            (0i128 - n as i128) as u128
        } else {
            n as u128
        };
        let mut p: u128 = 1;
        while m >= 9007199254740992u128 * p
            invariant
                1 <= p <= 4096,
                m <= 9223372036854775808u128,
                round_to_53_bits(m as nat, p as nat) == round_to_53_bits(m as nat, 1),
            decreases m - p,
        {
            p = p * 2;
        }
        let q = m / p;
        let r = m % p;
        assert(q * p <= m) by (nonlinear_arith)
            requires
                q == m / p,
                p >= 1,
        ;
        assert((q + 1) * p <= m + p) by (nonlinear_arith)
            requires
                q * p <= m,
        ;
        let rounded: u128 = if 2 * r > p || (2 * r == p && q % 2 == 1) {
            (q + 1) * p
        } else {
            q * p
        };
        let signed: i128 = if n < 0 {
            0i128 - rounded as i128
        } else {
            rounded as i128
        };
        let shown: i128 = if signed > 9223372036854775807i128 {
            9223372036854775807i128
        } else {
            signed
        };
        let mut text = String::new();
        if shown < 0 {
            push_char(&mut text, '-');
            push_decimal(&mut text, (0i128 - shown) as u128);
        } else {
            push_decimal(&mut text, shown as u128);
        }
        Number { text }
    }

    /// A number given by the decimal text that rendering shows for it.
    ///
    /// The text is not checked. Truthiness takes `"0"` as zero and every other
    /// text as non-zero, and equality compares texts (`"NaN"` equal to nothing),
    /// so the text should be the form in which a double is shown: `"0"` for
    /// zero, and the same text for equal numbers.
    pub fn from_text(text: String) -> (r: Number)
        ensures
            r@ == text@,
    {
        Number { text }
    }

    /// The decimal text of this number.
    pub fn text(&self) -> (r: &str)
        ensures
            r@ == self@,
    {
        self.text.as_str()
    }

    /// A copy of this number.
    pub fn copy(&self) -> (r: Number)
        ensures
            r@ == self@,
    {
        Number { text: self.text.clone() }
    }

    /// Whether this number is zero.
    pub fn is_zero(&self) -> (r: bool)
        ensures
            r == (self@ == seq!['0']),
    {
        let s = self.text.as_str();
        let v = crate::text::chars_of(s);
        if v.len() != 1 {
            return false;
        }
        assert(v@ =~= seq!['0'] ==> v@[0] == '0');
        let b = v[0] == '0';
        assert(b ==> v@ =~= seq!['0']);
        b
    }
}


/// A dynamic value that a template can show, test or loop over.
#[derive(Debug)]
pub enum Value {
    /// A string value.
    String(String),
    /// A numeric value.
    Number(Number),
    /// A boolean value.
    Bool(bool),
    /// A list of values.
    List(Vec<Value>),
    /// A nested map from names to values (shown as `[object]`).
    Object(ValueMap),
}

/// A map from names to values: a list of entries in which each name occurs
/// once; storing under a name replaces what was there.
#[derive(Debug)]
pub struct ValueMap {
    entries: Vec<(String, Value)>,
}

/// The map that a list of entries stands for; a later entry wins over an earlier one.
pub open spec fn entries_map(es: Seq<(String, Value)>) -> Map<Seq<char>, Value>
    decreases es.len(),
{
    if es.len() == 0 {
        Map::empty()
    } else {
        entries_map(es.drop_last()).insert(es.last().0@, es.last().1)
    }
}

/// No two entries have the same name.
pub open spec fn names_unique(es: Seq<(String, Value)>) -> bool {
    forall|i: int, j: int| 0 <= i < j < es.len() ==> es[i].0@ != es[j].0@
}

impl View for ValueMap {
    type V = Map<Seq<char>, Value>;

    closed spec fn view(&self) -> Map<Seq<char>, Value> {
        entries_map(self.entries@)
    }
}

/// A name is in the map exactly when some entry has it.
proof fn lemma_entries_map_dom(es: Seq<(String, Value)>, k: Seq<char>)
    ensures
        entries_map(es).contains_key(k) <==> exists|i: int| 0 <= i < es.len() && es[i].0@ == k,
    decreases es.len(),
{
    if es.len() > 0 {
        let d = es.drop_last();
        lemma_entries_map_dom(d, k);
        if exists|i: int| 0 <= i < es.len() && es[i].0@ == k {
            let i = choose|i: int| 0 <= i < es.len() && es[i].0@ == k;
            if i < es.len() - 1 {
                assert(d[i] == es[i]);
            }
        }
        if exists|i: int| 0 <= i < d.len() && d[i].0@ == k {
            let i = choose|i: int| 0 <= i < d.len() && d[i].0@ == k;
            assert(d[i] == es[i]);
        }
        if es.last().0@ == k {
            assert(es[es.len() - 1].0@ == k);
        }
    }
}

/// The value under a name is that of the last entry with that name.
proof fn lemma_entries_map_value(es: Seq<(String, Value)>, i: int, k: Seq<char>)
    requires
        0 <= i < es.len(),
        es[i].0@ == k,
        forall|j: int| i < j < es.len() ==> es[j].0@ != k,
    ensures
        entries_map(es).contains_key(k),
        entries_map(es)[k] == es[i].1,
    decreases es.len(),
{
    let d = es.drop_last();
    if i < es.len() - 1 {
        assert(es[es.len() - 1].0@ != k);
        assert(d[i] == es[i]);
        assert forall|j: int| i < j < d.len() implies d[j].0@ != k by {
            assert(d[j] == es[j]);
        }
        lemma_entries_map_value(d, i, k);
    }
}

/// Removing the only entry named `k` removes `k` from the map and nothing else.
proof fn lemma_entries_map_remove(es: Seq<(String, Value)>, i: int)
    requires
        0 <= i < es.len(),
        names_unique(es),
    ensures
        entries_map(es.remove(i)) == entries_map(es).remove(es[i].0@),
        names_unique(es.remove(i)),
        forall|j: int| 0 <= j < es.remove(i).len() ==> es.remove(i)[j].0@ != es[i].0@,
{
    let r = es.remove(i);
    let k = es[i].0@;
    assert forall|j: int| 0 <= j < r.len() implies r[j].0@ != k by {
        if j < i {
            assert(r[j] == es[j]);
        } else {
            assert(r[j] == es[j + 1]);
        }
    }
    assert forall|a: int, b: int| 0 <= a < b < r.len() implies r[a].0@ != r[b].0@ by {
        let a2 = if a < i { a } else { a + 1 };
        let b2 = if b < i { b } else { b + 1 };
        assert(r[a] == es[a2]);
        assert(r[b] == es[b2]);
    }
    assert forall|k2: Seq<char>| #[trigger] entries_map(r).contains_key(k2) == entries_map(es).remove(k).contains_key(k2) by {
        lemma_entries_map_dom(r, k2);
        lemma_entries_map_dom(es, k2);
        if k2 != k {
            if exists|j: int| 0 <= j < es.len() && es[j].0@ == k2 {
                let j = choose|j: int| 0 <= j < es.len() && es[j].0@ == k2;
                let j2 = if j < i { j } else { j - 1 };
                assert(r[j2] == es[j]);
            }
            if exists|j: int| 0 <= j < r.len() && r[j].0@ == k2 {
                let j = choose|j: int| 0 <= j < r.len() && r[j].0@ == k2;
                let j2 = if j < i { j } else { j + 1 };
                assert(r[j] == es[j2]);
            }
        }
    }
    assert forall|k2: Seq<char>| #[trigger] entries_map(r).contains_key(k2) implies entries_map(r)[k2] == entries_map(es)[k2] by {
        lemma_entries_map_dom(r, k2);
        let j = choose|j: int| 0 <= j < r.len() && r[j].0@ == k2;
        let j2 = if j < i { j } else { j + 1 };
        assert(r[j] == es[j2]);
        assert forall|x: int| j < x < r.len() implies r[x].0@ != k2 by {
            let x2 = if x < i { x } else { x + 1 };
            assert(r[x] == es[x2]);
            assert(es[x2].0@ != es[j2].0@);
        }
        assert forall|x: int| j2 < x < es.len() implies es[x].0@ != k2 by {
            assert(es[x].0@ != es[j2].0@);
        }
        lemma_entries_map_value(r, j, k2);
        lemma_entries_map_value(es, j2, k2);
    }
    assert(entries_map(r) =~= entries_map(es).remove(k));
}

impl ValueMap {
    #[verifier::type_invariant]
    spec fn well_formed(self) -> bool {
        names_unique(self.entries@)
    }

    /// An empty map.
    pub fn new() -> (m: ValueMap)
        ensures
            m@ == Map::<Seq<char>, Value>::empty(),
    {
        ValueMap { entries: Vec::new() }
    }

    /// Position of the entry named `key`, if any.
    fn position(&self, key: &String) -> (r: Option<usize>)
        ensures
            match r {
                Some(i) => i < self.entries@.len() && self.entries@[i as int].0@ == key@,
                None => forall|j: int| 0 <= j < self.entries@.len() ==> self.entries@[j].0@ != key@,
            },
    {
        let mut i: usize = 0;
        while i < self.entries.len()
            invariant
                i <= self.entries@.len(),
                forall|j: int| 0 <= j < i ==> self.entries@[j].0@ != key@,
            decreases self.entries@.len() - i,
        {
            if self.entries[i].0 == *key {
                return Some(i);
            }
            i = i + 1;
        }
        None
    }

    /// The value stored under `key`, if any.
    pub fn get(&self, key: &str) -> (r: Option<&Value>)
        ensures
            match r {
                Some(v) => self@.contains_key(key@) && *v == self@[key@],
                None => !self@.contains_key(key@),
            },
    {
        proof {
            use_type_invariant(self);
            lemma_entries_map_dom(self.entries@, key@);
        }
        let k = String::from_str(key);
        match self.position(&k) {
            Some(i) => {
                proof {
                    assert forall|j: int| i < j < self.entries@.len() implies self.entries@[j].0@ != key@ by {
                        assert(self.entries@[j].0@ != self.entries@[i as int].0@);
                    }
                    lemma_entries_map_value(self.entries@, i as int, key@);
                }
                Some(&self.entries[i].1)
            },
            None => None,
        }
    }

    /// Stores `value` under `key`, and gives back the value it replaced, if any.
    pub fn insert(&mut self, key: String, value: Value) -> (r: Option<Value>)
        ensures
            final(self)@ == old(self)@.insert(key@, value),
            match r {
                Some(v) => old(self)@.contains_key(key@) && v == old(self)@[key@],
                None => !old(self)@.contains_key(key@),
            },
    {
        proof {
            use_type_invariant(&*self);
            lemma_entries_map_dom(self.entries@, key@);
        }
        let ghost es = self.entries@;
        let found = self.position(&key);
        let mut entries = Vec::new();
        std::mem::swap(&mut entries, &mut self.entries);
        match found {
            Some(i) => {
                proof {
                    assert forall|j: int| i < j < es.len() implies es[j].0@ != key@ by {
                        assert(es[j].0@ != es[i as int].0@);
                    }
                    lemma_entries_map_remove(es, i as int);
                    lemma_entries_map_value(es, i as int, key@);
                }
                let (_, old_value) = entries.remove(i);
                let ghost removed = entries@;
                entries.push((key, value));
                proof {
                    assert(entries@.drop_last() =~= removed);
                    assert(entries_map(entries@) =~= entries_map(es).insert(key@, value));
                    assert forall|a: int, b: int| 0 <= a < b < entries@.len() implies entries@[a].0@ != entries@[b].0@ by {
                        if b == entries@.len() - 1 {
                            assert(entries@[a] == removed[a]);
                        } else {
                            assert(entries@[a] == removed[a]);
                            assert(entries@[b] == removed[b]);
                        }
                    }
                }
                self.entries = entries;
                Some(old_value)
            },
            None => {
                let ghost before = entries@;
                entries.push((key, value));
                proof {
                    assert(entries@.drop_last() =~= before);
                    assert forall|a: int, b: int| 0 <= a < b < entries@.len() implies entries@[a].0@ != entries@[b].0@ by {
                        assert(entries@[a] == before[a]);
                        if b < entries@.len() - 1 {
                            assert(entries@[b] == before[b]);
                        }
                    }
                }
                self.entries = entries;
                None
            },
        }
    }
}


/// The text a value is shown as: strings as they are, numbers in decimal,
/// `true`/`false`, lists as their items joined by `", "`, maps as `[object]`.
pub open spec fn display(v: Value) -> Seq<char>
    decreases v,
{
    match v {
        Value::String(s) => s@,
        Value::Number(n) => n@,
        Value::Bool(b) => if b {
            "true"@
        } else {
            "false"@
        },
        Value::List(items) => display_list(items@),
        Value::Object(_) => "[object]"@,
    }
}

/// The items shown one after another, separated by `", "`.
pub open spec fn display_list(items: Seq<Value>) -> Seq<char>
    decreases items,
{
    if items.len() == 0 {
        seq![]
    } else if items.len() == 1 {
        display(items[0])
    } else {
        display_list(items.drop_last()) + ", "@ + display(items.last())
    }
}

/// Whether a value counts as true in `{#if}`: a non-empty string or list,
/// a non-zero number, `true`, or any map.
pub open spec fn truthy(v: Value) -> bool {
    match v {
        Value::String(s) => s@.len() > 0,
        Value::Number(n) => n@ != seq!['0'],
        Value::Bool(b) => b,
        Value::List(items) => items@.len() > 0,
        Value::Object(_) => true,
    }
}

/// The name of a value's kind, as type errors report it.
pub open spec fn kind_name(v: Value) -> Seq<char> {
    match v {
        Value::String(_) => "string"@,
        Value::Number(_) => "number"@,
        Value::Bool(_) => "bool"@,
        Value::List(_) => "list"@,
        Value::Object(_) => "map"@,
    }
}

impl Value {
    /// The text this value is shown as in rendered output.
    pub fn display_string(&self) -> (r: String)
        ensures
            r@ == display(*self),
        decreases self,
    {
        match self {
            Value::String(s) => s.clone(),
            Value::Number(n) => String::from_str(n.text()),
            Value::Bool(b) => if *b {
                String::from_str("true")
            } else {
                String::from_str("false")
            },
            Value::List(items) => {
                let mut out = String::new();
                let mut k: usize = 0;
                while k < items.len()
                    invariant
                        k <= items@.len(),
                        *self == Value::List(*items),
                        out@ == display_list(items@.take(k as int)),
                    decreases items@.len() - k,
                {
                    let ghost pre = items@.take(k as int);
                    assert(items@.take(k + 1).drop_last() =~= pre);
                    assert(decreases_to!(*self => self->List_0));
                    assert(decreases_to!(self->List_0 => self->List_0@));
                    assert(decreases_to!(self->List_0@ => items@[k as int]));
                    let shown = items[k].display_string();
                    if k > 0 {
                        out.append(", ");
                    }
                    out.append(shown.as_str());
                    k = k + 1;
                }
                assert(items@.take(items@.len() as int) =~= items@);
                out
            },
            Value::Object(_) => String::from_str("[object]"),
        }
    }

    /// Whether this value counts as true in a conditional.
    pub fn is_truthy(&self) -> (r: bool)
        ensures
            r == truthy(*self),
    {
        match self {
            Value::String(s) => !s.as_str().is_empty(),
            Value::Number(n) => !n.is_zero(),
            Value::Bool(b) => *b,
            Value::List(items) => items.len() > 0,
            Value::Object(_) => true,
        }
    }

    /// The name of this value's kind.
    pub fn kind_name(&self) -> (r: String)
        ensures
            r@ == kind_name(*self),
    {
        match self {
            Value::String(_) => String::from_str("string"),
            Value::Number(_) => String::from_str("number"),
            Value::Bool(_) => String::from_str("bool"),
            Value::List(_) => String::from_str("list"),
            Value::Object(_) => String::from_str("map"),
        }
    }

    /// The text, if this is a string.
    #[must_use]
    pub fn as_str(&self) -> (r: Option<&str>)
        ensures
            match *self {
                Value::String(s) => r is Some && r->0@ == s@,
                _ => r is None,
            },
    {
        match self {
            Value::String(s) => Some(s.as_str()),
            _ => None,
        }
    }

    /// The boolean, if this is a boolean.
    #[must_use]
    pub fn as_bool(&self) -> (r: Option<bool>)
        ensures
            match *self {
                Value::Bool(b) => r == Some(b),
                _ => r is None,
            },
    {
        match self {
            Value::Bool(b) => Some(*b),
            _ => None,
        }
    }

    /// The items, if this is a list.
    #[must_use]
    pub fn as_list(&self) -> (r: Option<&[Value]>)
        ensures
            match *self {
                Value::List(items) => r is Some && r->0@ == items@,
                _ => r is None,
            },
    {
        match self {
            Value::List(items) => Some(items.as_slice()),
            _ => None,
        }
    }

    /// The map, if this is a map.
    #[must_use]
    pub fn as_map(&self) -> (r: Option<&ValueMap>)
        ensures
            match *self {
                Value::Object(m) => r is Some && *r->0 == m,
                _ => r is None,
            },
    {
        match self {
            Value::Object(m) => Some(m),
            _ => None,
        }
    }

    /// Whether this is a string.
    #[must_use]
    pub fn is_string(&self) -> (r: bool)
        ensures
            r == (*self is String),
    {
        matches!(self, Value::String(_))
    }

    /// Whether this is a number.
    #[must_use]
    pub fn is_number(&self) -> (r: bool)
        ensures
            r == (*self is Number),
    {
        matches!(self, Value::Number(_))
    }

    /// Whether this is a boolean.
    #[must_use]
    pub fn is_bool(&self) -> (r: bool)
        ensures
            r == (*self is Bool),
    {
        matches!(self, Value::Bool(_))
    }

    /// Whether this is a list.
    #[must_use]
    pub fn is_list(&self) -> (r: bool)
        ensures
            r == (*self is List),
    {
        matches!(self, Value::List(_))
    }

    /// Whether this is a map.
    #[must_use]
    pub fn is_map(&self) -> (r: bool)
        ensures
            r == (*self is Object),
    {
        matches!(self, Value::Object(_))
    }
}

impl From<&str> for Value {
    fn from(s: &str) -> (r: Value)
        ensures
            r is String && r->String_0@ == s@,
    {
        Value::String(String::from_str(s))
    }
}

/// `obeys_from_spec` is false: the value `from` makes holds a new `String`,
/// which no spec expression builds, so `from`'s own `ensures` states it.
impl vstd::std_specs::convert::FromSpecImpl<&str> for Value {
    open spec fn obeys_from_spec() -> bool {
        false
    }

    open spec fn from_spec(v: &str) -> Value {
        vstd::pervasive::arbitrary()
    }
}



impl From<String> for Value {
    fn from(s: String) -> (r: Value)
        ensures
            r is String && r->String_0@ == s@,
    {
        Value::String(s)
    }
}

/// `Value::from` on a `String` is `Value::String` holding it.
impl vstd::std_specs::convert::FromSpecImpl<String> for Value {
    open spec fn obeys_from_spec() -> bool {
        true
    }

    open spec fn from_spec(v: String) -> Value {
        Value::String(v)
    }
}

impl From<i64> for Value {
    fn from(n: i64) -> (r: Value)
        ensures
            r is Number && r->Number_0@ == decimal_int(int_as_double_shown(n as int)),
    {
        Value::Number(Number::from_i64(n))
    }
}

/// `obeys_from_spec` is false: the value `from` makes holds a new `String`,
/// which no spec expression builds, so `from`'s own `ensures` states it.
impl vstd::std_specs::convert::FromSpecImpl<i64> for Value {
    open spec fn obeys_from_spec() -> bool {
        false
    }

    open spec fn from_spec(v: i64) -> Value {
        vstd::pervasive::arbitrary()
    }
}


impl From<bool> for Value {
    fn from(b: bool) -> (r: Value)
        ensures
            r == Value::Bool(b),
    {
        Value::Bool(b)
    }
}

/// `Value::from` on a boolean is `Value::Bool` of it.
impl vstd::std_specs::convert::FromSpecImpl<bool> for Value {
    open spec fn obeys_from_spec() -> bool {
        true
    }

    open spec fn from_spec(v: bool) -> Value {
        Value::Bool(v)
    }
}

impl From<Vec<Value>> for Value {
    fn from(items: Vec<Value>) -> (r: Value)
        ensures
            r is List && r->List_0@ == items@,
    {
        Value::List(items)
    }
}

/// `Value::from` on a vector is `Value::List` holding it.
impl vstd::std_specs::convert::FromSpecImpl<Vec<Value>> for Value {
    open spec fn obeys_from_spec() -> bool {
        true
    }

    open spec fn from_spec(v: Vec<Value>) -> Value {
        Value::List(v)
    }
}

impl Default for Value {
    /// The empty string.
    fn default() -> (r: Value)
        ensures
            r is String && r->String_0@.len() == 0,
    {
        Value::String(String::new())
    }
}


impl Clone for Number {
    fn clone(&self) -> (r: Number)
        ensures
            r@ == self@,
    {
        self.copy()
    }
}

/// `a` and `b` hold the same content: the same kind, the same texts, numbers
/// and booleans, and, item by item or entry by entry, the same contents.
pub open spec fn same_value(a: Value, b: Value) -> bool
    decreases a,
{
    match a {
        Value::String(x) => b is String && b->String_0@ == x@,
        Value::Number(x) => b is Number && b->Number_0@ == x@,
        Value::Bool(x) => b == Value::Bool(x),
        Value::List(xs) => b is List && same_values(xs@, b->List_0@),
        Value::Object(m) => b is Object && m.same_map(b->Object_0),
    }
}

/// Two lists hold the same contents, item by item.
pub open spec fn same_values(xs: Seq<Value>, ys: Seq<Value>) -> bool
    decreases xs,
{
    xs.len() == ys.len() && (xs.len() == 0 || (same_values(xs.drop_last(), ys.drop_last())
        && same_value(xs.last(), ys.last())))
}

/// Two entry lists hold the same names and contents, entry by entry.
pub open spec fn same_entries(es: Seq<(String, Value)>, fs: Seq<(String, Value)>) -> bool
    decreases es,
{
    es.len() == fs.len() && (es.len() == 0 || (same_entries(es.drop_last(), fs.drop_last())
        && es.last().0@ == fs.last().0@ && same_value(es.last().1, fs.last().1)))
}

/// Entry lists with the same contents have the same names at each position.
proof fn lemma_same_entries_names(es: Seq<(String, Value)>, fs: Seq<(String, Value)>)
    requires
        same_entries(es, fs),
    ensures
        es.len() == fs.len(),
        forall|i: int| 0 <= i < es.len() ==> es[i].0@ == #[trigger] fs[i].0@,
    decreases es.len(),
{
    if es.len() > 0 {
        lemma_same_entries_names(es.drop_last(), fs.drop_last());
        assert forall|i: int| 0 <= i < es.len() implies es[i].0@ == #[trigger] fs[i].0@ by {
            if i < es.len() - 1 {
                assert(es.drop_last()[i] == es[i]);
                assert(fs.drop_last()[i] == fs[i]);
            }
        }
    }
}

impl ValueMap {
    /// This map and `other` hold the same names and contents, entry by entry.
    pub closed spec fn same_map(self, other: ValueMap) -> bool
        decreases self,
    {
        same_entries(self.entries@, other.entries@)
    }

    /// A copy of this map with copies of its values.
    pub fn deep_copy(&self) -> (r: ValueMap)
        ensures
            self.same_map(r),
        decreases self,
    {
        proof {
            use_type_invariant(self);
        }
        let mut entries: Vec<(String, Value)> = Vec::new();
        let mut k: usize = 0;
        while k < self.entries.len()
            invariant
                k <= self.entries@.len(),
                names_unique(self.entries@),
                same_entries(self.entries@.take(k as int), entries@),
            decreases self.entries@.len() - k,
        {
            let ghost pre = self.entries@.take(k as int);
            let ghost done = entries@;
            assert(self.entries@.take(k + 1).drop_last() =~= pre);
            assert(decreases_to!(*self => self.entries));
            assert(decreases_to!(self.entries => self.entries@));
            assert(decreases_to!(self.entries@ => self.entries@[k as int]));
            assert(decreases_to!(self.entries@[k as int] => self.entries@[k as int].1));
            let name = self.entries[k].0.clone();
            let value = self.entries[k].1.deep_copy();
            entries.push((name, value));
            assert(entries@.drop_last() =~= done);
            k = k + 1;
        }
        assert(self.entries@.take(self.entries@.len() as int) =~= self.entries@);
        proof {
            lemma_same_entries_names(self.entries@, entries@);
            assert forall|a: int, b: int| 0 <= a < b < entries@.len() implies entries@[a].0@
                != entries@[b].0@ by {
                assert(self.entries@[a].0@ == entries@[a].0@);
                assert(self.entries@[b].0@ == entries@[b].0@);
            }
        }
        ValueMap { entries }
    }
}

impl Value {
    /// A copy of this value with copies of everything it holds.
    pub fn deep_copy(&self) -> (r: Value)
        ensures
            same_value(*self, r),
        decreases self,
    {
        match self {
            Value::String(s) => Value::String(s.clone()),
            Value::Number(n) => Value::Number(n.copy()),
            Value::Bool(b) => Value::Bool(*b),
            Value::List(items) => {
                let mut out: Vec<Value> = Vec::new();
                let mut k: usize = 0;
                while k < items.len()
                    invariant
                        k <= items@.len(),
                        *self == Value::List(*items),
                        same_values(items@.take(k as int), out@),
                    decreases items@.len() - k,
                {
                    let ghost done = out@;
                    assert(items@.take(k + 1).drop_last() =~= items@.take(k as int));
                    assert(decreases_to!(*self => self->List_0));
                    assert(decreases_to!(self->List_0 => self->List_0@));
                    assert(decreases_to!(self->List_0@ => items@[k as int]));
                    let item = items[k].deep_copy();
                    out.push(item);
                    assert(out@.drop_last() =~= done);
                    k = k + 1;
                }
                assert(items@.take(items@.len() as int) =~= items@);
                Value::List(out)
            },
            Value::Object(m) => Value::Object(m.deep_copy()),
        }
    }
}

impl Clone for Value {
    fn clone(&self) -> (r: Value)
        ensures
            same_value(*self, r),
    {
        self.deep_copy()
    }
}

impl Clone for ValueMap {
    fn clone(&self) -> (r: ValueMap)
        ensures
            self.same_map(r),
    {
        self.deep_copy()
    }
}


/// Whether two values are equal as `==` compares them: texts and booleans
/// alike, numbers alike unless not a number (`NaN` equals nothing), lists
/// item by item, and maps with the same names holding equal values.
pub open spec fn value_eq(a: Value, b: Value) -> bool
    decreases a,
{
    match a {
        Value::String(x) => b is String && b->String_0@ == x@,
        Value::Number(x) => b is Number && b->Number_0@ == x@ && x@ != "NaN"@,
        Value::Bool(x) => b == Value::Bool(x),
        Value::List(xs) => b is List && values_eq(xs@, b->List_0@),
        Value::Object(m) => b is Object && m.eq_map(b->Object_0),
    }
}

/// Two lists are equal item by item.
pub open spec fn values_eq(xs: Seq<Value>, ys: Seq<Value>) -> bool
    decreases xs,
{
    xs.len() == ys.len() && (xs.len() == 0 || (values_eq(xs.drop_last(), ys.drop_last())
        && value_eq(xs.last(), ys.last())))
}

impl ValueMap {
    /// Both maps have the same number of names, and each name of this map is
    /// in `other` with an equal value.
    pub closed spec fn eq_map(self, other: ValueMap) -> bool
        decreases self,
    {
        &&& self.entries@.len() == other.entries@.len()
        &&& forall|i: int|
            0 <= i < self.entries@.len() ==> {
                &&& other@.contains_key(#[trigger] self.entries@[i].0@)
                &&& value_eq(self.entries@[i].1, other@[self.entries@[i].0@])
            }
    }

    /// Whether this map equals `other`.
    pub fn equals(&self, other: &ValueMap) -> (r: bool)
        ensures
            r == self.eq_map(*other),
        decreases self,
    {
        if self.entries.len() != other.entries.len() {
            return false;
        }
        let mut k: usize = 0;
        while k < self.entries.len()
            invariant
                k <= self.entries@.len(),
                self.entries@.len() == other.entries@.len(),
                forall|i: int|
                    0 <= i < k ==> {
                        &&& other@.contains_key(#[trigger] self.entries@[i].0@)
                        &&& value_eq(self.entries@[i].1, other@[self.entries@[i].0@])
                    },
            decreases self.entries@.len() - k,
        {
            assert(decreases_to!(*self => self.entries));
            assert(decreases_to!(self.entries => self.entries@));
            assert(decreases_to!(self.entries@ => self.entries@[k as int]));
            assert(decreases_to!(self.entries@[k as int] => self.entries@[k as int].1));
            match other.get(self.entries[k].0.as_str()) {
                None => {
                    return false;
                },
                Some(v) => {
                    if !self.entries[k].1.equals(v) {
                        return false;
                    }
                },
            }
            k = k + 1;
        }
        true
    }
}

impl Value {
    /// Whether this value equals `other`.
    pub fn equals(&self, other: &Value) -> (r: bool)
        ensures
            r == value_eq(*self, *other),
        decreases self,
    {
        match (self, other) {
            (Value::String(x), Value::String(y)) => *x == *y,
            (Value::Number(x), Value::Number(y)) => {
                let same = String::from_str(x.text()) == String::from_str(y.text());
                same && String::from_str(x.text()) != String::from_str("NaN")
            },
            (Value::Bool(x), Value::Bool(y)) => *x == *y,
            (Value::List(xs), Value::List(ys)) => {
                if xs.len() != ys.len() {
                    return false;
                }
                let mut k: usize = 0;
                while k < xs.len()
                    invariant
                        k <= xs@.len(),
                        xs@.len() == ys@.len(),
                        *self == Value::List(*xs),
                        *other == Value::List(*ys),
                        values_eq(xs@.take(k as int), ys@.take(k as int)),
                    decreases xs@.len() - k,
                {
                    assert(xs@.take(k + 1).drop_last() =~= xs@.take(k as int));
                    assert(ys@.take(k + 1).drop_last() =~= ys@.take(k as int));
                    assert(decreases_to!(*self => self->List_0));
                    assert(decreases_to!(self->List_0 => self->List_0@));
                    assert(decreases_to!(self->List_0@ => xs@[k as int]));
                    if !xs[k].equals(&ys[k]) {
                        proof {
                            if values_eq(xs@, ys@) {
                                lemma_values_eq_prefix(xs@, ys@, k + 1);
                                assert(xs@.take(k + 1).last() == xs@[k as int]);
                                assert(ys@.take(k + 1).last() == ys@[k as int]);
                            }
                        }
                        return false;
                    }
                    k = k + 1;
                }
                assert(xs@.take(xs@.len() as int) =~= xs@);
                assert(ys@.take(ys@.len() as int) =~= ys@);
                true
            },
            (Value::Object(m), Value::Object(n)) => m.equals(n),
            _ => false,
        }
    }
}

/// Lists that are equal are equal on each prefix.
proof fn lemma_values_eq_prefix(xs: Seq<Value>, ys: Seq<Value>, k: int)
    requires
        0 <= k <= xs.len(),
        xs.len() == ys.len(),
        values_eq(xs, ys),
    ensures
        values_eq(xs.take(k), ys.take(k)),
    decreases xs.len() - k,
{
    if k == xs.len() {
        assert(xs.take(k) =~= xs);
        assert(ys.take(k) =~= ys);
    } else {
        assert(xs.drop_last().take(k) =~= xs.take(k));
        assert(ys.drop_last().take(k) =~= ys.take(k));
        lemma_values_eq_prefix(xs.drop_last(), ys.drop_last(), k);
    }
}

impl PartialEq for Value {
    fn eq(&self, other: &Value) -> (r: bool) {
        self.equals(other)
    }
}

impl vstd::std_specs::cmp::PartialEqSpecImpl for Value {
    open spec fn obeys_eq_spec() -> bool {
        true
    }

    open spec fn eq_spec(&self, other: &Value) -> bool {
        value_eq(*self, *other)
    }
}

impl PartialEq for ValueMap {
    fn eq(&self, other: &ValueMap) -> (r: bool) {
        self.equals(other)
    }
}

impl vstd::std_specs::cmp::PartialEqSpecImpl for ValueMap {
    open spec fn obeys_eq_spec() -> bool {
        true
    }

    open spec fn eq_spec(&self, other: &ValueMap) -> bool {
        self.eq_map(*other)
    }
}


/// Equal maps agree name by name: each name of the first is in the second,
/// with an equal value.
pub proof fn law_equal_maps_agree(m1: ValueMap, m2: ValueMap, k: Seq<char>)
    requires
        value_eq(Value::Object(m1), Value::Object(m2)),
        m1@.contains_key(k),
    ensures
        m2@.contains_key(k),
        value_eq(m1@[k], m2@[k]),
{
    let es = m1.entries@;
    lemma_entries_map_dom(es, k);
    let i0 = choose|i: int| 0 <= i < es.len() && es[i].0@ == k;
    let i = lemma_last_entry(es, k, i0);
    lemma_entries_map_value(es, i, k);
    assert(es[i].0@ == k);
}

/// The last entry with a name, given one that has it.
proof fn lemma_last_entry(es: Seq<(String, Value)>, k: Seq<char>, i0: int) -> (i: int)
    requires
        0 <= i0 < es.len(),
        es[i0].0@ == k,
    ensures
        i0 <= i < es.len(),
        es[i].0@ == k,
        forall|j: int| i < j < es.len() ==> es[j].0@ != k,
    decreases es.len() - i0,
{
    if exists|j: int| i0 < j < es.len() && es[j].0@ == k {
        let j = choose|j: int| i0 < j < es.len() && es[j].0@ == k;
        lemma_last_entry(es, k, j)
    } else {
        i0
    }
}

} // verus!
