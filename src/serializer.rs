//! Turns a scalar value into the text a path segment or a query pair
//! carries; "no value" gives `None`, so that the pair is left out.
use crate::text::joined;
use vstd::prelude::*;

verus! {

/// Serializes one scalar into its string form.
pub struct StringSerializer;

/// A value the serializer cannot put in a single string (a sequence, a map,
/// a struct, an enum variant), with a message.
pub struct StringSerializerError(pub String);

pub open spec fn digit_char(d: nat) -> char {
    if d == 0 {
        '0'
    } else if d == 1 {
        '1'
    } else if d == 2 {
        '2'
    } else if d == 3 {
        '3'
    } else if d == 4 {
        '4'
    } else if d == 5 {
        '5'
    } else if d == 6 {
        '6'
    } else if d == 7 {
        '7'
    } else if d == 8 {
        '8'
    } else {
        '9'
    }
}

/// The decimal digits of `n`, most significant first.
pub open spec fn decimal(n: nat) -> Seq<char>
    decreases n,
{
    if n < 10 {
        seq![digit_char(n)]
    } else {
        decimal(n / 10) + seq![digit_char(n % 10)]
    }
}

/// The decimal form of a signed integer: a minus sign before a negative one.
pub open spec fn signed_decimal(n: int) -> Seq<char> {
    if n < 0 {
        seq!['-'] + decimal((-n) as nat)
    } else {
        decimal(n as nat)
    }
}

fn digit_text(d: u64) -> (r: &'static str)
    requires
        d < 10,
    ensures
        r@ == seq![digit_char(d as nat)],
{
    proof {
        reveal_strlit("0");
        reveal_strlit("1");
        reveal_strlit("2");
        reveal_strlit("3");
        reveal_strlit("4");
        reveal_strlit("5");
        reveal_strlit("6");
        reveal_strlit("7");
        reveal_strlit("8");
        reveal_strlit("9");
    }
    let r = if d == 0 {
        "0"
    } else if d == 1 {
        "1"
    } else if d == 2 {
        "2"
    } else if d == 3 {
        "3"
    } else if d == 4 {
        "4"
    } else if d == 5 {
        "5"
    } else if d == 6 {
        "6"
    } else if d == 7 {
        "7"
    } else if d == 8 {
        "8"
    } else {
        "9"
    };
    assert(r@ =~= seq![digit_char(d as nat)]);
    r
}

/// The decimal digits of `n`.
pub fn decimal_string(n: u64) -> (r: String)
    ensures
        r@ == decimal(n as nat),
{
    let mut v: u64 = n;
    let mut out = String::new();
    loop
        invariant
            v > 0 || (v == 0 && n == 0 && out@.len() == 0),
            decimal(n as nat) == decimal(v as nat) + out@,
        decreases v,
    {
        let d = v % 10;
        out = joined(digit_text(d), out.as_str());
        if v < 10 {
            assert(decimal(v as nat) == seq![digit_char(v as nat)]);
            assert(decimal(n as nat) =~= out@);
            return out;
        }
        assert(decimal(v as nat) == decimal((v / 10) as nat) + seq![digit_char((v % 10) as nat)]);
        assert(decimal(n as nat) =~= decimal((v / 10) as nat) + out@);
        v = v / 10;
    }
}

impl StringSerializer {
    pub fn serialize_bool(self, value: bool) -> (r: Result<Option<String>, StringSerializerError>)
        ensures
            r matches Ok(Some(t)) && t@ == if value {
                "true"@
            } else {
                "false"@
            },
    {
        if value {
            Ok(Some(String::from_str("true")))
        } else {
            Ok(Some(String::from_str("false")))
        }
    }

    pub fn serialize_u64(self, value: u64) -> (r: Result<Option<String>, StringSerializerError>)
        ensures
            r matches Ok(Some(t)) && t@ == decimal(value as nat),
    {
        Ok(Some(decimal_string(value)))
    }

    pub fn serialize_i64(self, value: i64) -> (r: Result<Option<String>, StringSerializerError>)
        ensures
            r matches Ok(Some(t)) && t@ == signed_decimal(value as int),
    {
        if value < 0 {
            let magnitude: u64 = if value == i64::MIN {
                9223372036854775808u64
            } else {
                (-value) as u64
            };
            proof {
                reveal_strlit("-");
            }
            let digits = decimal_string(magnitude);
            let t = joined("-", digits.as_str());
            assert(t@ =~= signed_decimal(value as int));
            Ok(Some(t))
        } else {
            Ok(Some(decimal_string(value as u64)))
        }
    }

    pub fn serialize_str(self, value: &str) -> (r: Result<Option<String>, StringSerializerError>)
        ensures
            r matches Ok(Some(t)) && t@ == value@,
    {
        Ok(Some(value.to_owned()))
    }

    /// No value: the pair is left out.
    pub fn serialize_none(self) -> (r: Result<Option<String>, StringSerializerError>)
        ensures
            r matches Ok(None),
    {
        Ok(None)
    }

    /// The unit value: nothing to send.
    pub fn serialize_unit(self) -> (r: Result<Option<String>, StringSerializerError>)
        ensures
            r matches Ok(None),
    {
        Ok(None)
    }

    /// A value with parts (sequence, map, struct, variant) has no single
    /// string form.
    pub fn serialize_compound(self, kind: &str) -> (r: Result<Option<String>, StringSerializerError>)
        ensures
            r matches Err(StringSerializerError(m)) && m@ == "cannot serialize "@ + kind@ + " into a string"@,
    {
        let mut m = String::from_str("cannot serialize ");
        m.append(kind);
        m.append(" into a string");
        Err(StringSerializerError(m))
    }
}

impl StringSerializerError {
    /// The error's message.
    pub fn message(&self) -> (r: &str)
        ensures
            r@ == self.0@,
    {
        self.0.as_str()
    }
}

} // verus!
