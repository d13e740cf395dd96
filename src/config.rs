use vstd::prelude::*;
use vstd::string::StringExecFns;
use vstd::string::StringSliceAdditionalSpecFns;
use crate::extract::Mode;

verus! {

/// The byte of the digit `0`.
pub const ZERO: u8 = 48;

/// The byte of the sign `+`.
pub const PLUS: u8 = 43;

/// Whether `b` is an ASCII decimal digit.
pub open spec fn is_digit(b: u8) -> bool {
    ZERO <= b && b <= ZERO + 9
}

/// Whether `s` is a nonempty run of decimal digits.
pub open spec fn is_decimal(s: Seq<u8>) -> bool {
    s.len() > 0 && forall|i: int| 0 <= i < s.len() ==> is_digit(#[trigger] s[i])
}

/// The number that a run of decimal digits writes.
pub open spec fn digits_value(s: Seq<u8>) -> nat
    decreases s.len(),
{
    if s.len() == 0 {
        0
    } else {
        digits_value(s.drop_last()) * 10 + (s.last() - ZERO) as nat
    }
}

/// `s` without one leading `+` sign, if it has one.
pub open spec fn unsigned_part(s: Seq<u8>) -> Seq<u8> {
    if s.len() > 0 && s[0] == PLUS {
        s.drop_first()
    } else {
        s
    }
}

/// The positive machine-sized integer that the text `s` writes in decimal,
/// with an optional leading `+`; none if `s` writes no such number.
pub open spec fn positive_int_of(s: Seq<u8>) -> Option<nat> {
    let d = unsigned_part(s);
    if is_decimal(d) && 0 < digits_value(d) <= usize::MAX {
        Some(digits_value(d))
    } else {
        None
    }
}

proof fn lemma_digits_value_monotone(s: Seq<u8>, i: int, j: int)
    requires
        0 <= i <= j <= s.len(),
        forall|k: int| 0 <= k < s.len() ==> is_digit(#[trigger] s[k]),
    ensures
        digits_value(s.take(i)) <= digits_value(s.take(j)),
    decreases j - i,
{
    if i < j {
        lemma_digits_value_monotone(s, i, j - 1);
        assert(s.take(j).drop_last() =~= s.take(j - 1));
    }
}

/// Reads a positive count written in decimal; the error holds the text.
pub fn parse_positive_int(val: &str) -> (r: Result<usize, String>)
    ensures
        r is Ok <==> positive_int_of(val.spec_bytes()) is Some,
        r matches Ok(n) ==> positive_int_of(val.spec_bytes()) == Some(n as nat),
        r matches Err(e) ==> e@ == val@,
{
    let b = val.as_bytes();
    let start: usize = if b.len() > 0 && b[0] == PLUS { 1 } else { 0 };
    proof {
        assert(unsigned_part(b@) =~= b@.skip(start as int));
    }
    let ghost d = b@.skip(start as int);
    if start == b.len() {
        return Err(val.to_owned());
    }
    let mut i: usize = start;
    while i < b.len()
        invariant
            start <= i <= b@.len(),
            d == b@.skip(start as int),
            b@ == val.spec_bytes(),
            unsigned_part(b@) == d,
            forall|k: int| 0 <= k < i - start ==> is_digit(#[trigger] d[k]),
        decreases b@.len() - i,
    {
        proof {
            assert(d[i - start] == b@[i as int]);
        }
        if b[i] < ZERO || b[i] > ZERO + 9 {
            proof {
                assert(!is_digit(d[i - start]));
                assert(!is_decimal(d));
                assert(unsigned_part(val.spec_bytes()) == d);
                assert(positive_int_of(val.spec_bytes()) is None);
            }
            return Err(val.to_owned());
        }
        i = i + 1;
    }
    let mut v: usize = 0;
    let mut i: usize = start;
    proof {
        assert(d.take(0) =~= Seq::<u8>::empty());
    }
    while i < b.len()
        invariant
            start <= i <= b@.len(),
            d == b@.skip(start as int),
            b@ == val.spec_bytes(),
            unsigned_part(b@) == d,
            is_decimal(d),
            v == digits_value(d.take(i - start)),
        decreases b@.len() - i,
    {
        proof {
            assert(d.take(i - start + 1).drop_last() =~= d.take(i - start));
            assert(d[i - start] == b@[i as int]);
            assert(is_digit(d[i - start]));
            assert(d.take(i - start + 1).last() == d[i - start]);
        }
        let x: usize = (b[i] - ZERO) as usize;
        if v > (usize::MAX - x) / 10 {
            proof {
                assert(v * 10 + x > usize::MAX) by (nonlinear_arith)
                    requires
                        v > (usize::MAX - x) / 10,
                        x <= 9,
                ;
                lemma_digits_value_monotone(d, i - start + 1, d.len() as int);
                assert(d.take(d.len() as int) =~= d);
                assert(digits_value(d) > usize::MAX);
                assert(unsigned_part(val.spec_bytes()) == d);
                assert(positive_int_of(val.spec_bytes()) is None);
            }
            return Err(val.to_owned());
        }
        proof {
            assert(v * 10 + x <= usize::MAX) by (nonlinear_arith)
                requires
                    v <= (usize::MAX - x) / 10,
                    x <= 9,
            ;
        }
        v = v * 10 + x;
        i = i + 1;
    }
    proof {
        assert(d.take(d.len() as int) =~= d);
    }
    if v == 0 {
        return Err(val.to_owned());
    }
    Ok(v)
}

/// The identifier that names standard input.
pub open spec fn stdin_id() -> Seq<char> {
    seq!['-']
}

/// The validated parameters of one run.
pub struct Config {
    /// The sources, in the order they are processed.
    pub files: Vec<String>,
    /// How many lines to take when no byte count is given.
    pub lines: usize,
    /// How many bytes to take; when given, byte mode is used.
    pub bytes: Option<usize>,
}

impl Config {
    /// At least one source, and positive counts.
    pub open spec fn wf(&self) -> bool {
        &&& self.files@.len() > 0
        &&& self.lines > 0
        &&& self.bytes matches Some(m) ==> m > 0
    }

    /// The extraction mode: bytes when a byte count is given, else lines.
    pub open spec fn spec_mode(&self) -> Mode {
        match self.bytes {
            Some(m) => Mode::Bytes(m),
            None => Mode::Lines(self.lines),
        }
    }

    /// The extraction mode that every source is read in.
    pub fn mode(&self) -> (r: Mode)
        ensures
            r == self.spec_mode(),
    {
        match self.bytes {
            Some(m) => Mode::Bytes(m),
            None => Mode::Lines(self.lines),
        }
    }
}

/// The sources of a run: those given, or standard input when none is.
pub open spec fn sources_of(files: Seq<String>, out: Seq<String>) -> bool {
    if files.len() == 0 {
        out.len() == 1 && out[0]@ == stdin_id()
    } else {
        out == files
    }
}

/// Builds a configuration from the source list and the count texts given
/// on the command line; `lines` is the line count text (its default
/// included), `bytes` the byte count text if one was given.
pub fn make_config(files: Vec<String>, lines: &str, bytes: Option<&str>) -> (r: Result<
    Config,
    String,
>)
    ensures
        r is Ok <==> (positive_int_of(lines.spec_bytes()) is Some && (bytes matches Some(b)
            ==> positive_int_of(b.spec_bytes()) is Some)),
        r matches Ok(c) ==> {
            &&& c.wf()
            &&& sources_of(files@, c.files@)
            &&& positive_int_of(lines.spec_bytes()) == Some(c.lines as nat)
            &&& match bytes {
                Some(b) => c.bytes matches Some(m) && positive_int_of(b.spec_bytes()) == Some(
                    m as nat,
                ),
                None => c.bytes is None,
            }
        },
        r matches Err(e) ==> if positive_int_of(lines.spec_bytes()) is None {
            e@ == "given line count not allowed -- "@ + lines@
        } else {
            bytes matches Some(b) && e@ == "given byte count not allowed -- "@ + b@
        },
{
    let n = match parse_positive_int(lines) {
        Ok(n) => n,
        Err(e) => {
            let mut msg = String::from_str("given line count not allowed -- ");
            msg.append(e.as_str());
            return Err(msg);
        },
    };
    let m = match bytes {
        Some(b) => match parse_positive_int(b) {
            Ok(m) => Some(m),
            Err(e) => {
                let mut msg = String::from_str("given byte count not allowed -- ");
                msg.append(e.as_str());
                return Err(msg);
            },
        },
        None => None,
    };
    let files = if files.len() == 0 {
        let mut v: Vec<String> = Vec::new();
        v.push(String::from_str("-"));
        proof {
            reveal_strlit("-");
            assert(v@[0]@ =~= stdin_id());
        }
        v
    } else {
        files
    };
    Ok(Config { files, lines: n, bytes: m })
}

} // verus!
