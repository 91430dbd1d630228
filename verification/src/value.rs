//! Attribute keys, attribute values and attribute lists.
//!
//! A key is either the key of an event, which is set to a callback, or
//! the key of a value, which is set to a literal. An attribute that sets
//! the key of a value to a callback, or the key of an event to a literal,
//! sets nothing: it is passed over wherever attributes are read.
//!
//! An attribute list may name a key more than once. The value in effect for
//! a key is the one of the last attribute that sets it: [`lookup`] is the
//! single place where these rules are written down, and everything else in
//! the crate reads attribute lists through it.
use vstd::prelude::*;
use vstd::string::StringExecFns;

verus! {

/// The closed set of attribute keys.
#[derive(Debug, Clone, Copy, PartialEq, Eq, Structural)]
pub enum AttribKey {
    /// Stable identity of a node among its siblings.
    Key,
    Label,
    Value,
    Data,
    Width,
    Height,
    Name,
    /// Width in pixels of the picture that image data decodes to.
    PixelsWide,
    /// Height in pixels of the picture that image data decodes to.
    PixelsHigh,
    ClickEvent,
    InputEvent,
}

/// A literal attribute value.
#[derive(Debug, Clone, PartialEq, Eq)]
pub enum Value {
    Bool(bool),
    Str(String),
    Int(i64),
    Bytes(Vec<u8>),
}

/// Mathematical model of a [`Value`].
pub enum ValueView {
    Bool(bool),
    Str(Seq<char>),
    Int(int),
    Bytes(Seq<u8>),
}

impl View for Value {
    type V = ValueView;

    open spec fn view(&self) -> ValueView {
        match self {
            Value::Bool(b) => ValueView::Bool(*b),
            Value::Str(s) => ValueView::Str(s@),
            Value::Int(i) => ValueView::Int(*i as int),
            Value::Bytes(b) => ValueView::Bytes(b@),
        }
    }
}

/// What an attribute carries: a literal, or the handle of an event callback.
///
/// A callback is held as an opaque handle. The library never looks behind
/// it; it only copies it and compares it with other handles.
#[derive(Debug, Clone, PartialEq, Eq)]
pub enum AttribValue {
    Value(Value),
    Callback(u64),
}

/// Mathematical model of an [`AttribValue`].
pub enum AttribValueView {
    Value(ValueView),
    Callback(u64),
}

impl View for AttribValue {
    type V = AttribValueView;

    open spec fn view(&self) -> AttribValueView {
        match self {
            AttribValue::Value(v) => AttribValueView::Value(v@),
            AttribValue::Callback(c) => AttribValueView::Callback(*c),
        }
    }
}

/// A key paired with what it is set to.
#[derive(Debug, Clone, PartialEq, Eq)]
pub struct Attribute {
    pub name: AttribKey,
    pub value: AttribValue,
}

/// Mathematical model of an [`Attribute`].
pub struct AttributeView {
    pub name: AttribKey,
    pub value: AttribValueView,
}

impl View for Attribute {
    type V = AttributeView;

    open spec fn view(&self) -> AttributeView {
        AttributeView { name: self.name, value: self.value@ }
    }
}

/// Model of an attribute list.
pub open spec fn attrs_view(attrs: Seq<Attribute>) -> Seq<AttributeView> {
    attrs.map_values(|a: Attribute| a@)
}

/// Whether a key is the key of an event.
pub open spec fn is_event_key(key: AttribKey) -> bool {
    key is ClickEvent || key is InputEvent
}

/// Whether an attribute sets its key: a callback the key of an event, a
/// literal any other key.
pub open spec fn sets_key(attr: AttributeView) -> bool {
    (attr.value is Callback) == is_event_key(attr.name)
}

/// What `key` is set to in `attrs`: the value of the last attribute that
/// sets it, `None` where no attribute does.
pub open spec fn lookup(attrs: Seq<AttributeView>, key: AttribKey) -> Option<AttribValueView>
    decreases attrs.len(),
{
    if attrs.len() == 0 {
        None
    } else if attrs.last().name == key && sets_key(attrs.last()) {
        Some(attrs.last().value)
    } else {
        lookup(attrs.drop_last(), key)
    }
}

/// The literal that `key` is set to, if it is set to a literal.
pub open spec fn lookup_value(attrs: Seq<AttributeView>, key: AttribKey) -> Option<ValueView> {
    match lookup(attrs, key) {
        Some(AttribValueView::Value(v)) => Some(v),
        _ => None,
    }
}

/// The callback handle that `key` is set to, if it is set to a callback.
pub open spec fn lookup_callback(attrs: Seq<AttributeView>, key: AttribKey) -> Option<u64> {
    match lookup(attrs, key) {
        Some(AttribValueView::Callback(c)) => Some(c),
        _ => None,
    }
}

/// The character that stands for a decimal digit.
pub open spec fn digit_char(d: nat) -> char {
    if d == 0 {
        '0'
    } else if d == 1 {
        '1'
    } else if d == 2 {
        '2'
    } else if d == 3 {
        '3'
    } else if d == 4 {
        '4'
    } else if d == 5 {
        '5'
    } else if d == 6 {
        '6'
    } else if d == 7 {
        '7'
    } else if d == 8 {
        '8'
    } else {
        '9'
    }
}

/// The decimal digits of a natural number, most significant first, with no
/// leading zero but for zero itself.
pub open spec fn digits(n: nat) -> Seq<char>
    decreases n,
{
    if n < 10 {
        seq![digit_char(n)]
    } else {
        digits(n / 10).push(digit_char(n % 10))
    }
}

/// An integer in decimal, with a leading `-` where it is negative.
pub open spec fn decimal(i: int) -> Seq<char> {
    if i < 0 {
        seq!['-'] + digits((-i) as nat)
    } else {
        digits(i as nat)
    }
}

/// The text a literal shows as: a string as it is, a boolean as `true` or
/// `false`, an integer in decimal. A byte buffer has no text: it shows as
/// the empty string, so that a label or a value set to bytes is blank.
pub open spec fn text_of(value: ValueView) -> Seq<char> {
    match value {
        ValueView::Str(s) => s,
        ValueView::Bool(b) => if b {
            "true"@
        } else {
            "false"@
        },
        ValueView::Int(i) => decimal(i),
        ValueView::Bytes(_) => Seq::empty(),
    }
}

/// The one-character string of a decimal digit.
fn digit_str(d: u64) -> (r: &'static str)
    requires
        d < 10,
    ensures
        r@ == seq![digit_char(d as nat)],
{
    proof {
        reveal_strlit("0");
        reveal_strlit("1");
        reveal_strlit("2");
        reveal_strlit("3");
        reveal_strlit("4");
        reveal_strlit("5");
        reveal_strlit("6");
        reveal_strlit("7");
        reveal_strlit("8");
        reveal_strlit("9");
    }
    let r = if d == 0 {
        "0"
    } else if d == 1 {
        "1"
    } else if d == 2 {
        "2"
    } else if d == 3 {
        "3"
    } else if d == 4 {
        "4"
    } else if d == 5 {
        "5"
    } else if d == 6 {
        "6"
    } else if d == 7 {
        "7"
    } else if d == 8 {
        "8"
    } else {
        "9"
    };
    assert(r@ =~= seq![digit_char(d as nat)]);
    r
}

/// Appends the decimal digits of `n` to `out`.
fn push_digits(n: u64, out: &mut String)
    ensures
        final(out)@ == old(out)@ + digits(n as nat),
    decreases n,
{
    if n >= 10 {
        push_digits(n / 10, out);
    }
    out.append(digit_str(n % 10));
    assert(out@ =~= old(out)@ + digits(n as nat));
}

/// An integer in decimal.
pub fn decimal_string(i: i64) -> (r: String)
    ensures
        r@ == decimal(i as int),
{
    let mut out = String::new();
    if i < 0 {
        proof {
            reveal_strlit("-");
        }
        out.append("-");
        assert(out@ =~= seq!['-']);
        let magnitude: u64 = (-(i + 1)) as u64 + 1;
        push_digits(magnitude, &mut out);
    } else {
        push_digits(i as u64, &mut out);
        assert(out@ =~= digits(i as nat));
    }
    out
}

impl Value {
    /// The text this literal shows as. A byte buffer shows as the empty
    /// string.
    pub fn to_text(&self) -> (r: String)
        ensures
            r@ == text_of(self@),
            self@ is Bytes ==> r@ == Seq::<char>::empty(),
    {
        match self {
            Value::Str(s) => s.clone(),
            Value::Bool(b) => if *b {
                String::from_str("true")
            } else {
                String::from_str("false")
            },
            Value::Int(i) => decimal_string(*i),
            Value::Bytes(_) => String::new(),
        }
    }

    /// A copy of this value.
    pub fn duplicate(&self) -> (r: Value)
        ensures
            r@ == self@,
    {
        match self {
            Value::Bool(b) => Value::Bool(*b),
            Value::Str(s) => Value::Str(s.clone()),
            Value::Int(i) => Value::Int(*i),
            Value::Bytes(b) => Value::Bytes(copy_bytes(b)),
        }
    }

    /// Whether two values are the same literal.
    pub fn same(&self, other: &Value) -> (r: bool)
        ensures
            r == (self@ == other@),
    {
        match (self, other) {
            (Value::Bool(a), Value::Bool(b)) => *a == *b,
            (Value::Str(a), Value::Str(b)) => *a == *b,
            (Value::Int(a), Value::Int(b)) => *a == *b,
            (Value::Bytes(a), Value::Bytes(b)) => same_bytes(a, b),
            _ => false,
        }
    }

    pub fn as_bool(&self) -> (r: Option<bool>)
        ensures
            r == (match self@ {
                ValueView::Bool(b) => Some(b),
                _ => None,
            }),
    {
        match self {
            Value::Bool(b) => Some(*b),
            _ => None,
        }
    }

    pub fn as_int(&self) -> (r: Option<i64>)
        ensures
            match self@ {
                ValueView::Int(i) => r == Some(i as i64) && r->0 as int == i,
                _ => r is None,
            },
    {
        match self {
            Value::Int(i) => Some(*i),
            _ => None,
        }
    }
}

/// A copy of a byte buffer.
pub fn copy_bytes(bytes: &Vec<u8>) -> (r: Vec<u8>)
    ensures
        r@ == bytes@,
{
    let mut out: Vec<u8> = Vec::new();
    let mut i: usize = 0;
    while i < bytes.len()
        invariant
            i <= bytes.len(),
            out@ == bytes@.take(i as int),
        decreases bytes.len() - i,
    {
        out.push(bytes[i]);
        i += 1;
        assert(bytes@.take(i as int) == bytes@.take(i - 1).push(bytes@[i - 1]));
    }
    assert(bytes@.take(bytes.len() as int) == bytes@);
    out
}

/// Whether two byte buffers hold the same bytes.
pub fn same_bytes(a: &Vec<u8>, b: &Vec<u8>) -> (r: bool)
    ensures
        r == (a@ == b@),
{
    if a.len() != b.len() {
        return false;
    }
    let mut i: usize = 0;
    while i < a.len()
        invariant
            i <= a.len(),
            a.len() == b.len(),
            a@.take(i as int) == b@.take(i as int),
        decreases a.len() - i,
    {
        if a[i] != b[i] {
            return false;
        }
        i += 1;
        assert(a@.take(i as int) == a@.take(i - 1).push(a@[i - 1]));
        assert(b@.take(i as int) == b@.take(i - 1).push(b@[i - 1]));
    }
    assert(a@.take(a.len() as int) == a@);
    assert(b@.take(b.len() as int) == b@);
    true
}

impl AttribValue {
    /// A copy of this attribute value.
    pub fn duplicate(&self) -> (r: AttribValue)
        ensures
            r@ == self@,
    {
        match self {
            AttribValue::Value(v) => AttribValue::Value(v.duplicate()),
            AttribValue::Callback(c) => AttribValue::Callback(*c),
        }
    }

    /// Whether two attribute values are the same literal or the same callback.
    pub fn same(&self, other: &AttribValue) -> (r: bool)
        ensures
            r == (self@ == other@),
    {
        match (self, other) {
            (AttribValue::Value(a), AttribValue::Value(b)) => a.same(b),
            (AttribValue::Callback(a), AttribValue::Callback(b)) => *a == *b,
            _ => false,
        }
    }
}

impl Attribute {
    /// An attribute that sets `name` to a literal.
    pub fn from_value(name: AttribKey, value: Value) -> (r: Attribute)
        ensures
            r@ == (AttributeView { name, value: AttribValueView::Value(value@) }),
    {
        Attribute { name, value: AttribValue::Value(value) }
    }

    /// An attribute that sets `name` to a callback.
    pub fn from_callback(name: AttribKey, callback: u64) -> (r: Attribute)
        ensures
            r@ == (AttributeView { name, value: AttribValueView::Callback(callback) }),
    {
        Attribute { name, value: AttribValue::Callback(callback) }
    }

    /// A copy of this attribute.
    pub fn duplicate(&self) -> (r: Attribute)
        ensures
            r@ == self@,
    {
        Attribute { name: self.name, value: self.value.duplicate() }
    }

    /// The literal this attribute carries, if it carries one.
    pub fn get_value(&self) -> (r: Option<&Value>)
        ensures
            match self@.value {
                AttribValueView::Value(v) => r is Some && r->0@ == v,
                AttribValueView::Callback(_) => r is None,
            },
    {
        match &self.value {
            AttribValue::Value(v) => Some(v),
            AttribValue::Callback(_) => None,
        }
    }

    /// The callback handle this attribute carries, if it carries one.
    pub fn get_callback(&self) -> (r: Option<u64>)
        ensures
            r == (match self@.value {
                AttribValueView::Callback(c) => Some(c),
                AttribValueView::Value(_) => None,
            }),
    {
        match &self.value {
            AttribValue::Callback(c) => Some(*c),
            AttribValue::Value(_) => None,
        }
    }
}

impl AttribKey {
    /// Whether this is the key of an event.
    pub fn is_event(&self) -> (r: bool)
        ensures
            r == is_event_key(*self),
    {
        match self {
            AttribKey::ClickEvent | AttribKey::InputEvent => true,
            _ => false,
        }
    }
}

impl Attribute {
    /// Whether this attribute sets its key: a callback the key of an
    /// event, a literal any other key.
    pub fn sets_its_key(&self) -> (r: bool)
        ensures
            r == sets_key(self@),
    {
        let calls = match &self.value {
            AttribValue::Callback(_) => true,
            AttribValue::Value(_) => false,
        };
        calls == self.name.is_event()
    }
}

/// The attribute in effect for `key`: the last one in `attrs` that sets it.
pub fn find_attribute<'a>(key: AttribKey, attrs: &'a Vec<Attribute>) -> (r: Option<&'a Attribute>)
    ensures
        match lookup(attrs_view(attrs@), key) {
            Some(v) => r is Some && r->0@ == (AttributeView { name: key, value: v }),
            None => r is None,
        },
{
    let mut i: usize = attrs.len();
    let ghost all = attrs_view(attrs@);
    assert(all.take(i as int) == all);
    while i > 0
        invariant
            i <= attrs.len(),
            all == attrs_view(attrs@),
            lookup(all, key) == lookup(all.take(i as int), key),
        decreases i,
    {
        i -= 1;
        proof {
            let pre = all.take(i + 1);
            assert(pre.last() == all[i as int]);
            assert(pre.drop_last() == all.take(i as int));
        }
        if attrs[i].name == key && attrs[i].sets_its_key() {
            return Some(&attrs[i]);
        }
    }
    proof {
        assert(all.take(0).len() == 0);
    }
    None
}

/// The literal in effect for `key`, if `key` is set to a literal.
pub fn find_value<'a>(key: AttribKey, attrs: &'a Vec<Attribute>) -> (r: Option<&'a Value>)
    ensures
        match lookup_value(attrs_view(attrs@), key) {
            Some(v) => r is Some && r->0@ == v,
            None => r is None,
        },
{
    match find_attribute(key, attrs) {
        Some(a) => a.get_value(),
        None => None,
    }
}

/// The callback handle in effect for `key`, if `key` is set to a callback.
pub fn find_callback(key: AttribKey, attrs: &Vec<Attribute>) -> (r: Option<u64>)
    ensures
        r == lookup_callback(attrs_view(attrs@), key),
{
    match find_attribute(key, attrs) {
        Some(a) => a.get_callback(),
        None => None,
    }
}

/// A copy of an attribute list.
pub fn copy_attributes(attrs: &Vec<Attribute>) -> (r: Vec<Attribute>)
    ensures
        attrs_view(r@) == attrs_view(attrs@),
{
    let mut out: Vec<Attribute> = Vec::new();
    let mut i: usize = 0;
    while i < attrs.len()
        invariant
            i <= attrs.len(),
            out.len() == i,
            forall|j: int| 0 <= j < i ==> (#[trigger] out@[j])@ == attrs@[j]@,
        decreases attrs.len() - i,
    {
        out.push(attrs[i].duplicate());
        i += 1;
    }
    assert(attrs_view(out@) =~= attrs_view(attrs@));
    out
}

} // verus!
