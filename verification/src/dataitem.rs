use vstd::prelude::*;
use vstd::string::*;

verus! {

/// Why a line of the data file cannot be read as a labeled example.
#[derive(Debug, Clone, Copy, PartialEq, Eq, Structural)]
pub enum DataItemParseError {
    /// The line holds a character outside the ASCII range.
    NotValidAscii,
    /// The line fits neither the binary nor the real-valued row format.
    InvalidFormat,
    /// A real-valued field could not be read as a number. The row format
    /// admits only digit characters in those fields, so a conforming line
    /// never produces this error.
    FloatParseError,
}

pub open spec fn is_binary_digit(c: char) -> bool {
    c == '0' || c == '1'
}

pub open spec fn is_decimal_digit(c: char) -> bool {
    48 <= c as u32 && c as u32 <= 57
}

/// A binary row: five or six binary digits, a space, and a one-digit label.
pub open spec fn is_binary_line(s: Seq<char>) -> bool {
    &&& s.len() == 7 || s.len() == 8
    &&& s[s.len() - 2] == ' '
    &&& is_binary_digit(s[s.len() - 1])
    &&& forall|i: int| 0 <= i < s.len() - 2 ==> is_binary_digit(s[i])
}

/// The g-th real-valued field, at offset `9 * g`: the eight characters
/// `0.dddddd`.
pub open spec fn is_real_group(s: Seq<char>, g: int) -> bool {
    &&& s[9 * g] == '0'
    &&& s[9 * g + 1] == '.'
    &&& forall|m: int| 9 * g + 2 <= m < 9 * g + 8 ==> is_decimal_digit(#[trigger] s[m])
}

/// A space stands between the g-th real-valued field and the next.
pub open spec fn real_sep(s: Seq<char>, g: int) -> bool {
    s[9 * g + 8] == ' '
}

/// A real-valued row: six space-separated `0.dddddd` fields, a space, and a
/// one-digit label, 55 characters in all.
pub open spec fn is_real_line(s: Seq<char>) -> bool {
    &&& s.len() == 55
    &&& forall|g: int| 0 <= g < 6 ==> #[trigger] is_real_group(s, g)
    &&& forall|g: int| 0 <= g < 5 ==> #[trigger] real_sep(s, g)
    &&& s[53] == ' '
    &&& is_binary_digit(s[54])
}

/// The symbol a real-valued field stands for: a six-digit fraction below one
/// rounds to one exactly when its tenths digit is at least five.
pub open spec fn real_digit(s: Seq<char>, g: int) -> char {
    if 53 <= s[9 * g + 2] as u32 {
        '1'
    } else {
        '0'
    }
}

/// The fixed-width symbol string a well-formed row denotes: a binary row
/// denotes its digits as written, a real-valued row the rounding of each of
/// its six fields.
pub open spec fn parsed_input(s: Seq<char>) -> Seq<char> {
    if is_binary_line(s) {
        s.take(s.len() - 2)
    } else {
        Seq::new(6, |g: int| real_digit(s, g))
    }
}

/// A labeled example: a fixed-width string of binary symbols and a one-digit
/// binary label.
#[derive(Debug)]
pub struct DataItem {
    input: String,
    output: String,
}

impl View for DataItem {
    type V = (Seq<char>, Seq<char>);

    closed spec fn view(&self) -> (Seq<char>, Seq<char>) {
        (self.input@, self.output@)
    }
}

impl DataItem {
    /// Every example that can be built consists of binary symbols with a
    /// one-digit binary label.
    pub open spec fn wf(self) -> bool {
        &&& forall|i: int| 0 <= i < self@.0.len() ==> is_binary_digit(self@.0[i])
        &&& self@.1.len() == 1
        &&& is_binary_digit(self@.1[0])
    }

    /// The example's label, "0" or "1".
    pub fn output(&self) -> (r: &str)
        ensures
            r@ == self@.1,
    {
        self.output.as_str()
    }

    /// The example's symbol string.
    pub fn as_str(&self) -> (r: &str)
        ensures
            r@ == self@.0,
    {
        self.input.as_str()
    }

    /// The symbol at `index`, or None past the end of the string.
    pub fn char_at(&self, index: usize) -> (r: Option<char>)
        ensures
            match r {
                Some(c) => index < self@.0.len() && c == self@.0[index as int],
                None => index >= self@.0.len(),
            },
    {
        let s = self.input.as_str();
        let n = s.unicode_len();
        if index < n {
            Some(s.get_char(index))
        } else {
            None
        }
    }

    /// The width of the example's symbol string.
    pub fn width(&self) -> (n: usize)
        ensures
            n == self@.0.len(),
    {
        self.input.as_str().unicode_len()
    }

    /// Whether every symbol of the example is a binary digit. Every example
    /// this library builds is binary, the real-valued rows having been
    /// rounded when they were read.
    pub fn is_binary(&self) -> (r: bool)
        ensures
            r == forall|i: int| 0 <= i < self@.0.len() ==> is_binary_digit(self@.0[i]),
    {
        let s = self.input.as_str();
        let n = s.unicode_len();
        let mut i: usize = 0;
        while i < n
            invariant
                i <= n,
                n == self@.0.len(),
                s@ == self@.0,
                forall|j: int| 0 <= j < i ==> is_binary_digit(self@.0[j]),
            decreases n - i,
        {
            let c = s.get_char(i);
            if !(c == '0' || c == '1') {
                return false;
            }
            i += 1;
        }
        true
    }

    /// Read one line of the data file as a labeled example. A line is either
    /// a binary row (five or six binary digits, a space and a binary label)
    /// or a real-valued row (six `0.dddddd` fields, space-separated, then a
    /// space and a binary label); each real field is rounded to the nearest
    /// whole number to give a binary symbol.
    pub fn parse(input: &str) -> (r: Result<DataItem, DataItemParseError>)
        ensures
            r is Ok <==> is_ascii(input) && (is_binary_line(input@) || is_real_line(input@)),
            r == Err::<DataItem, _>(DataItemParseError::NotValidAscii) <==> !is_ascii(input),
            r == Err::<DataItem, _>(DataItemParseError::InvalidFormat)
                <==> is_ascii(input) && !is_binary_line(input@) && !is_real_line(input@),
            r matches Ok(item) ==> ({
                &&& item@.0 == parsed_input(input@)
                &&& item@.1 == seq![input@[input@.len() - 1]]
                &&& item.wf()
            }),
    {
        if !input.is_ascii() {
            return Err(DataItemParseError::NotValidAscii);
        }
        let n = input.unicode_len();
        if n == 7 || n == 8 {
            let k = n - 2;
            let mut i: usize = 0;
            while i < k
                invariant
                    i <= k,
                    k == n - 2,
                    n == input@.len(),
                    n == 7 || n == 8,
                    is_ascii(input),
                    forall|j: int| 0 <= j < i ==> is_binary_digit(input@[j]),
                decreases k - i,
            {
                let c = input.get_char(i);
                if !(c == '0' || c == '1') {
                    proof {
                        assert(!is_binary_line(input@)) by {
                            assert(!is_binary_digit(input@[i as int]));
                        }
                        assert(!is_real_line(input@));
                    }
                    return Err(DataItemParseError::InvalidFormat);
                }
                i += 1;
            }
            if input.get_char(k) != ' ' {
                proof {
                    assert(!is_binary_line(input@));
                    assert(!is_real_line(input@));
                }
                return Err(DataItemParseError::InvalidFormat);
            }
            let label = input.get_char(n - 1);
            if !(label == '0' || label == '1') {
                proof {
                    assert(!is_binary_line(input@));
                    assert(!is_real_line(input@));
                }
                return Err(DataItemParseError::InvalidFormat);
            }
            proof {
                assert(is_binary_line(input@));
            }
            let digits = input.substring_ascii(0, k);
            let label_str = input.substring_ascii(n - 1, n);
            let item = DataItem { input: digits.to_owned(), output: label_str.to_owned() };
            proof {
                assert(item@.0 =~= parsed_input(input@));
                assert(item@.1 =~= seq![input@[input@.len() - 1]]);
            }
            Ok(item)
        } else if n == 55 {
            let mut out = String::new();
            let mut g: usize = 0;
            while g < 6
                invariant
                    g <= 6,
                    n == input@.len(),
                    n == 55,
                    is_ascii(input),
                    forall|h: int| 0 <= h < g ==> #[trigger] is_real_group(input@, h),
                    forall|h: int| 0 <= h < g && h < 5 ==> #[trigger] real_sep(input@, h),
                    out@.len() == g,
                    forall|h: int| 0 <= h < g ==> out@[h] == real_digit(input@, h),
                decreases 6 - g,
            {
                let off = 9 * g;
                if input.get_char(off) != '0' || input.get_char(off + 1) != '.' {
                    proof {
                        assert(!is_real_group(input@, g as int));
                        assert(!is_real_line(input@));
                        assert(!is_binary_line(input@));
                    }
                    return Err(DataItemParseError::InvalidFormat);
                }
                let mut j: usize = 2;
                while j < 8
                    invariant
                        2 <= j <= 8,
                        n == input@.len(),
                        n == 55,
                        g < 6,
                        off == 9 * g,
                        is_ascii(input),
                        forall|m: int| 9 * (g as int) + 2 <= m < 9 * (g as int) + j
                            ==> is_decimal_digit(#[trigger] input@[m]),
                    decreases 8 - j,
                {
                    let c = input.get_char(off + j);
                    let u = c as u32;
                    if !(48 <= u && u <= 57) {
                        proof {
                            assert(!is_real_group(input@, g as int)) by {
                                assert(!is_decimal_digit(input@[9 * (g as int) + (j as int)]));
                            }
                            assert(!is_real_line(input@));
                            assert(!is_real_line(input@));
                            assert(!is_binary_line(input@));
                        }
                        return Err(DataItemParseError::InvalidFormat);
                    }
                    j += 1;
                }
                if g < 5 && input.get_char(off + 8) != ' ' {
                    proof {
                        assert(!real_sep(input@, g as int));
                        assert(!is_real_line(input@));
                        assert(!is_binary_line(input@));
                    }
                    return Err(DataItemParseError::InvalidFormat);
                }
                let tenths = input.get_char(off + 2);
                if 53 <= tenths as u32 {
                    out.append("1");
                    proof {
                        reveal_strlit("1");
                        assert(out@[g as int] == real_digit(input@, g as int));
                    }
                } else {
                    out.append("0");
                    proof {
                        reveal_strlit("0");
                        assert(out@[g as int] == real_digit(input@, g as int));
                    }
                }
                g += 1;
            }
            if input.get_char(53) != ' ' {
                proof {
                    assert(!is_real_line(input@));
                    assert(!is_binary_line(input@));
                }
                return Err(DataItemParseError::InvalidFormat);
            }
            let label = input.get_char(54);
            if !(label == '0' || label == '1') {
                proof {
                    assert(!is_real_line(input@));
                    assert(!is_binary_line(input@));
                }
                return Err(DataItemParseError::InvalidFormat);
            }
            proof {
                assert(is_real_line(input@));
            }
            let label_str = input.substring_ascii(54, 55);
            let item = DataItem { input: out, output: label_str.to_owned() };
            proof {
                assert(!is_binary_line(input@));
                assert(item@.0 =~= parsed_input(input@)) by {
                    reveal_strlit("1");
                    reveal_strlit("0");
                }
                assert(item@.1 =~= seq![input@[input@.len() - 1]]);
                assert(item.wf()) by {
                    reveal_strlit("1");
                    reveal_strlit("0");
                }
            }
            Ok(item)
        } else {
            proof {
                assert(!is_binary_line(input@));
                assert(!is_real_line(input@));
            }
            Err(DataItemParseError::InvalidFormat)
        }
    }
}

impl PartialEq for DataItem {
    /// Examples are equal when their symbol strings and labels are.
    fn eq(&self, other: &DataItem) -> (r: bool) {
        self.input == other.input && self.output == other.output
    }
}

impl vstd::std_specs::cmp::PartialEqSpecImpl for DataItem {
    open spec fn obeys_eq_spec() -> bool {
        true
    }

    open spec fn eq_spec(&self, other: &DataItem) -> bool {
        self@ == other@
    }
}

impl Eq for DataItem {}

impl Clone for DataItem {
    fn clone(&self) -> (res: DataItem)
        ensures
            res@ == self@,
    {
        DataItem { input: self.input.clone(), output: self.output.clone() }
    }
}

} // verus!
