//! The RESP value type and its mathematical model.

use vstd::prelude::*;

verus! {

#[derive(Eq, PartialEq, PartialOrd, Ord, Hash, Debug)]
pub enum RespDataType {
    SimpleStrings(Option<String>),
    BulkStrings(Option<String>),
    Arrays(Option<Vec<RespDataType>>),
    Integers(Option<i64>),
    Errors(String),
}

/// A RESP value as contracts see it.
pub enum RespValue {
    SimpleString(Option<Seq<char>>),
    BulkString(Option<Seq<char>>),
    Array(Option<Seq<RespValue>>),
    Integer(Option<i64>),
    Error(Seq<char>),
}

/// The text of an optional string.
pub open spec fn text_of(s: Option<String>) -> Option<Seq<char>> {
    match s {
        Some(t) => Some(t@),
        None => None,
    }
}

/// The model of a value.
pub open spec fn value_of(v: RespDataType) -> RespValue
    decreases v, 0nat,
{
    match v {
        RespDataType::SimpleStrings(s) => RespValue::SimpleString(text_of(s)),
        RespDataType::BulkStrings(s) => RespValue::BulkString(text_of(s)),
        RespDataType::Arrays(Some(items)) => RespValue::Array(
            Some(values_upto(items@, items@.len())),
        ),
        RespDataType::Arrays(None) => RespValue::Array(None),
        RespDataType::Integers(n) => RespValue::Integer(n),
        RespDataType::Errors(s) => RespValue::Error(s@),
    }
}

/// The models of the first `n` values of a list.
pub open spec fn values_upto(items: Seq<RespDataType>, n: nat) -> Seq<RespValue>
    decreases items, n,
{
    if n == 0 || n > items.len() {
        Seq::empty()
    } else {
        values_upto(items, (n - 1) as nat).push(value_of(items[n - 1]))
    }
}

impl View for RespDataType {
    type V = RespValue;

    open spec fn view(&self) -> RespValue {
        value_of(*self)
    }
}

impl DeepView for RespDataType {
    type V = RespValue;

    open spec fn deep_view(&self) -> RespValue {
        self@
    }
}

/// The values of a list, each by its model.
pub open spec fn values_of(items: Seq<RespDataType>) -> Seq<RespValue> {
    Seq::new(items.len(), |i: int| items[i]@)
}

proof fn values_upto_is(items: Seq<RespDataType>, n: nat)
    requires
        n <= items.len(),
    ensures
        values_upto(items, n) == values_of(items.take(n as int)),
    decreases n,
{
    if n == 0 {
        assert(values_upto(items, n) =~= values_of(items.take(n as int)));
    } else {
        values_upto_is(items, (n - 1) as nat);
        assert(values_upto(items, n) =~= values_of(items.take(n as int)));
    }
}

/// The model of an array is the list of its items' models.
pub proof fn array_view(items: Vec<RespDataType>)
    ensures
        RespDataType::Arrays(Some(items))@ == RespValue::Array(Some(values_of(items@))),
{
    values_upto_is(items@, items@.len());
    assert(items@.take(items@.len() as int) =~= items@);
}

fn clone_text(s: &Option<String>) -> (r: Option<String>)
    ensures
        text_of(r) == text_of(*s),
{
    match s {
        Some(t) => Some(t.clone()),
        None => None,
    }
}

fn same_text(a: &Option<String>, b: &Option<String>) -> (r: bool)
    ensures
        r == (text_of(*a) == text_of(*b)),
{
    match (a, b) {
        (Some(x), Some(y)) => *x == *y,
        (None, None) => true,
        _ => false,
    }
}

impl Clone for RespDataType {
    fn clone(&self) -> (r: Self)
        ensures
            r@ == self@,
        decreases self,
    {
        match self {
            RespDataType::SimpleStrings(s) => RespDataType::SimpleStrings(clone_text(s)),
            RespDataType::BulkStrings(s) => RespDataType::BulkStrings(clone_text(s)),
            RespDataType::Arrays(Some(items)) => {
                let mut out: Vec<RespDataType> = Vec::new();
                let mut i: usize = 0;
                while i < items.len()
                    invariant
                        i <= items@.len(),
                        out@.len() == i,
                        forall|k: int| 0 <= k < i ==> (#[trigger] out@[k])@ == items@[k]@,
                        decreases_to!(*self => *items),
                    decreases items@.len() - i,
                {
                    proof {
                        assert(decreases_to!(*items => items[i as int]));
                    }
                    let item = items[i].clone();
                    out.push(item);
                    i = i + 1;
                }
                proof {
                    array_view(out);
                    array_view(*items);
                    assert(values_of(out@) =~= values_of(items@));
                }
                RespDataType::Arrays(Some(out))
            },
            RespDataType::Arrays(None) => RespDataType::Arrays(None),
            RespDataType::Integers(n) => RespDataType::Integers(*n),
            RespDataType::Errors(s) => RespDataType::Errors(s.clone()),
        }
    }
}

impl RespDataType {
    /// Whether two values are the same value.
    pub fn same(&self, other: &Self) -> (r: bool)
        ensures
            r == (self@ == other@),
        decreases self,
    {
        match (self, other) {
            (RespDataType::SimpleStrings(a), RespDataType::SimpleStrings(b)) => same_text(a, b),
            (RespDataType::BulkStrings(a), RespDataType::BulkStrings(b)) => same_text(a, b),
            (RespDataType::Arrays(Some(a)), RespDataType::Arrays(Some(b))) => {
                proof {
                    array_view(*a);
                    array_view(*b);
                }
                if a.len() != b.len() {
                    proof {
                        assert(values_of(a@).len() != values_of(b@).len());
                    }
                    return false;
                }
                let mut i: usize = 0;
                while i < a.len()
                    invariant
                        i <= a@.len(),
                        a@.len() == b@.len(),
                        forall|k: int| 0 <= k < i ==> (#[trigger] a@[k])@ == b@[k]@,
                        decreases_to!(*self => *a),
                        self@ == RespValue::Array(Some(values_of(a@))),
                        other@ == RespValue::Array(Some(values_of(b@))),
                    decreases a@.len() - i,
                {
                    proof {
                        assert(decreases_to!(*a => a[i as int]));
                    }
                    if !a[i].same(&b[i]) {
                        proof {
                            assert(values_of(a@)[i as int] != values_of(b@)[i as int]);
                        }
                        return false;
                    }
                    i = i + 1;
                }
                proof {
                    assert(values_of(a@) =~= values_of(b@));
                }
                true
            },
            (RespDataType::Arrays(None), RespDataType::Arrays(None)) => true,
            (RespDataType::Integers(a), RespDataType::Integers(b)) => match (a, b) {
                (Some(x), Some(y)) => *x == *y,
                (None, None) => true,
                _ => false,
            },
            (RespDataType::Errors(a), RespDataType::Errors(b)) => *a == *b,
            _ => false,
        }
    }

    /// The value type that a frame's first byte announces; the value it
    /// carries is still absent.
    pub fn from_prefix(byte: u8) -> (r: Result<Self, RespTypeError>)
        ensures
            byte == 43 ==> r is Ok && r->Ok_0@ == RespValue::SimpleString(None),
            byte == 36 ==> r is Ok && r->Ok_0@ == RespValue::BulkString(None),
            byte == 42 ==> r is Ok && r->Ok_0@ == RespValue::Array(None),
            byte == 58 ==> r is Ok && r->Ok_0@ == RespValue::Integer(None),
            byte != 43 && byte != 36 && byte != 42 && byte != 58 ==> r is Err && r->Err_0
                == RespTypeError::UnsupportedType(byte as char),
    {
        if byte == 43 {
            Ok(RespDataType::SimpleStrings(None))
        } else if byte == 36 {
            Ok(RespDataType::BulkStrings(None))
        } else if byte == 42 {
            Ok(RespDataType::Arrays(None))
        } else if byte == 58 {
            Ok(RespDataType::Integers(None))
        } else {
            Err(RespTypeError::UnsupportedType(byte as char))
        }
    }

    /// The byte that announces a value of this type on the wire.
    pub fn prefix(&self) -> (r: u8)
        ensures
            r == prefix_of(self@),
    {
        match self {
            RespDataType::SimpleStrings(_) => 43,
            RespDataType::BulkStrings(_) => 36,
            RespDataType::Arrays(_) => 42,
            RespDataType::Integers(_) => 58,
            RespDataType::Errors(_) => 45,
        }
    }
}

/// The byte that announces a value on the wire: `+`, `$`, `*`, `:` or `-`.
pub open spec fn prefix_of(v: RespValue) -> u8 {
    match v {
        RespValue::SimpleString(_) => 43,
        RespValue::BulkString(_) => 36,
        RespValue::Array(_) => 42,
        RespValue::Integer(_) => 58,
        RespValue::Error(_) => 45,
    }
}

#[derive(Debug, PartialEq, Eq)]
pub enum RespTypeError {
    UnsupportedType(char),
}

} // verus!
