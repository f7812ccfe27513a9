use vstd::prelude::*;
use vstd::string::StringExecFns;

verus! {

/// A runtime value: the number, string, boolean and null variants the
/// evaluator works with.
#[derive(Debug, PartialEq)]
pub enum Value {
    Number(i64),
    String(String),
    Boolean(bool),
    Null,
}

/// Mathematical model of a runtime value.
pub enum ValueModel {
    Number(i64),
    String(Seq<char>),
    Boolean(bool),
    Null,
}

impl View for Value {
    type V = ValueModel;

    open spec fn view(&self) -> ValueModel {
        match self {
            Value::Number(n) => ValueModel::Number(*n),
            Value::String(s) => ValueModel::String(s@),
            Value::Boolean(b) => ValueModel::Boolean(*b),
            Value::Null => ValueModel::Null,
        }
    }
}

impl Clone for Value {
    fn clone(&self) -> (r: Value)
        ensures
            r == *self,
    {
        match self {
            Value::Number(n) => Value::Number(*n),
            Value::String(s) => Value::String(s.clone()),
            Value::Boolean(b) => Value::Boolean(*b),
            Value::Null => Value::Null,
        }
    }
}

/// Concatenation of output lines is associative.
pub broadcast proof fn lemma_out_assoc(a: Seq<Seq<char>>, b: Seq<Seq<char>>, c: Seq<Seq<char>>)
    ensures
        #[trigger] ((a + b) + c) == a + (b + c),
{
    assert((a + b) + c =~= a + (b + c));
}

/// Pushing one line is appending a singleton.
pub broadcast proof fn lemma_push_one(s: Seq<Seq<char>>, x: Seq<char>)
    ensures
        #[trigger] s.push(x) == s + seq![x],
{
    assert(s.push(x) =~= s + seq![x]);
}

/// The truthiness coercion used by loop conditions: a boolean is itself,
/// null is false, a number is false exactly at zero, a string is false
/// exactly when empty.
pub open spec fn spec_truthy(v: ValueModel) -> bool {
    match v {
        ValueModel::Boolean(b) => b,
        ValueModel::Null => false,
        ValueModel::Number(n) => n != 0,
        ValueModel::String(s) => s.len() != 0,
    }
}

/// The decimal digit character for `d` in 0..10.
pub open spec fn digit_char(d: int) -> char {
    if d == 0 {
        '0'
    } else if d == 1 {
        '1'
    } else if d == 2 {
        '2'
    } else if d == 3 {
        '3'
    } else if d == 4 {
        '4'
    } else if d == 5 {
        '5'
    } else if d == 6 {
        '6'
    } else if d == 7 {
        '7'
    } else if d == 8 {
        '8'
    } else {
        '9'
    }
}

/// The decimal representation of a natural number, most significant digit
/// first, with no leading zeros (a single `0` for zero).
pub open spec fn spec_dec_rep(n: nat) -> Seq<char>
    decreases n,
{
    if n < 10 {
        seq![digit_char(n as int)]
    } else {
        spec_dec_rep(n / 10).push(digit_char((n % 10) as int))
    }
}

/// The decimal rendering of a signed 64-bit number: a minus sign followed
/// by the magnitude for negative values, the plain magnitude otherwise.
pub open spec fn spec_render_int(v: i64) -> Seq<char> {
    if v < 0 {
        seq!['-'] + spec_dec_rep((-(v as int)) as nat)
    } else {
        spec_dec_rep(v as nat)
    }
}

/// The fixed textual rendering of a value: numbers in decimal, strings as
/// their raw contents, `true` as `no cap`, `false` as `cap`, and the null
/// value as `bugatti`.
pub open spec fn spec_render(v: ValueModel) -> Seq<char> {
    match v {
        ValueModel::Number(n) => spec_render_int(n),
        ValueModel::String(s) => s,
        ValueModel::Boolean(b) => if b {
            "no cap"@
        } else {
            "cap"@
        },
        ValueModel::Null => "bugatti"@,
    }
}

/// The one-character string for a decimal digit.
fn digit_str(d: u64) -> (r: &'static str)
    requires
        d < 10,
    ensures
        r@ == seq![digit_char(d as int)],
{
    if d == 0 {
        proof {
            reveal_strlit("0");
            assert("0"@ =~= seq!['0']);
        }
        "0"
    } else if d == 1 {
        proof {
            reveal_strlit("1");
            assert("1"@ =~= seq!['1']);
        }
        "1"
    } else if d == 2 {
        proof {
            reveal_strlit("2");
            assert("2"@ =~= seq!['2']);
        }
        "2"
    } else if d == 3 {
        proof {
            reveal_strlit("3");
            assert("3"@ =~= seq!['3']);
        }
        "3"
    } else if d == 4 {
        proof {
            reveal_strlit("4");
            assert("4"@ =~= seq!['4']);
        }
        "4"
    } else if d == 5 {
        proof {
            reveal_strlit("5");
            assert("5"@ =~= seq!['5']);
        }
        "5"
    } else if d == 6 {
        proof {
            reveal_strlit("6");
            assert("6"@ =~= seq!['6']);
        }
        "6"
    } else if d == 7 {
        proof {
            reveal_strlit("7");
            assert("7"@ =~= seq!['7']);
        }
        "7"
    } else if d == 8 {
        proof {
            reveal_strlit("8");
            assert("8"@ =~= seq!['8']);
        }
        "8"
    } else {
        proof {
            reveal_strlit("9");
            assert("9"@ =~= seq!['9']);
        }
        "9"
    }
}

/// The decimal string for an unsigned number.
fn dec_str(m: u64) -> (r: String)
    ensures
        r@ == spec_dec_rep(m as nat),
    decreases m,
{
    if m < 10 {
        digit_str(m).to_owned()
    } else {
        let mut s = dec_str(m / 10);
        s.append(digit_str(m % 10));
        proof {
            assert(s@ =~= spec_dec_rep(m as nat));
        }
        s
    }
}

/// The decimal string for a signed 64-bit number.
fn render_int(v: i64) -> (r: String)
    ensures
        r@ == spec_render_int(v),
{
    if v >= 0 {
        dec_str(v as u64)
    } else {
        let wide: i128 = v as i128;
        let mag: u64 = (-wide) as u64;
        let mut s = "-".to_owned();
        s.append(dec_str(mag).as_str());
        proof {
            reveal_strlit("-");
            assert("-"@ =~= seq!['-']);
            assert(s@ =~= spec_render_int(v));
        }
        s
    }
}

impl Value {
    /// Renders the value through the fixed textual mapping used by `print`:
    /// numbers in decimal, strings verbatim, `no cap`/`cap` for the
    /// booleans, and `bugatti` for the null value.
    pub fn render(&self) -> (r: String)
        ensures
            r@ == spec_render(self@),
    {
        match self {
            Value::Number(n) => render_int(*n),
            Value::String(s) => s.clone(),
            Value::Boolean(b) => if *b {
                "no cap".to_owned()
            } else {
                "cap".to_owned()
            },
            Value::Null => "bugatti".to_owned(),
        }
    }
}

} // verus!
