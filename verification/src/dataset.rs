use vstd::prelude::*;
use vstd::utf8::is_ascii_chars;
use crate::dataitem::{DataItem, DataItemParseError, is_binary_digit, is_binary_line, is_real_line,
    parsed_input};

verus! {

/// Why an example cannot join a data set, or the split request is invalid.
#[derive(Debug, Clone, Copy, PartialEq, Eq, Structural)]
pub enum DataSetError {
    /// The example's kind (binary or not) differs from the set's.
    HeterogenousData,
    /// The example's width differs from the set's.
    LengthMismatch,
    /// A split was requested at more than one hundred percent.
    InvalidPercentage,
}

/// Why the data file's lines cannot be read as a data set.
#[derive(Debug, Clone, Copy, PartialEq, Eq, Structural)]
#[allow(inconsistent_fields)]
pub enum DataSetParseError {
    /// A line could not be read as a labeled example.
    DataItemParseError { line_number: usize, source: DataItemParseError },
    /// A line's example does not fit the examples before it.
    DataSetError { line_number: usize, source: DataSetError },
}

/// All symbols of the string are binary digits.
pub open spec fn seq_is_binary(s: Seq<char>) -> bool {
    forall|i: int| 0 <= i < s.len() ==> is_binary_digit(s[i])
}

/// An example fits a set whose first example is `first` when it has the same
/// kind (binary or not) and the same width; both are views, a pair of symbol
/// string and label.
pub open spec fn fits(first: (Seq<char>, Seq<char>), item: (Seq<char>, Seq<char>)) -> bool {
    seq_is_binary(item.0) == seq_is_binary(first.0) && item.0.len() == first.0.len()
}

/// The error `push` gives for an example that does not fit.
pub open spec fn push_error(first: (Seq<char>, Seq<char>), item: (Seq<char>, Seq<char>)) -> DataSetError {
    if seq_is_binary(item.0) != seq_is_binary(first.0) {
        DataSetError::HeterogenousData
    } else {
        DataSetError::LengthMismatch
    }
}

/// The line reads as a labeled example.
pub open spec fn line_parses(line: Seq<char>) -> bool {
    is_ascii_chars(line) && (is_binary_line(line) || is_real_line(line))
}

/// The example view a well-formed line denotes.
pub open spec fn line_item(line: Seq<char>) -> (Seq<char>, Seq<char>) {
    (parsed_input(line), seq![line[line.len() - 1]])
}

/// The error an ill-formed line gives.
pub open spec fn line_error(line: Seq<char>) -> DataItemParseError {
    if !is_ascii_chars(line) {
        DataItemParseError::NotValidAscii
    } else {
        DataItemParseError::InvalidFormat
    }
}

/// The example views that reading the first `i` lines of the data file
/// yields, or the error on which reading stops. The first line is a header
/// and is skipped.
pub open spec fn spec_read(lines: Seq<Seq<char>>, i: int) -> Result<
    Seq<(Seq<char>, Seq<char>)>,
    DataSetParseError,
>
    decreases i,
{
    if i <= 1 {
        Ok(Seq::empty())
    } else {
        match spec_read(lines, i - 1) {
            Err(e) => Err(e),
            Ok(prefix) => {
                let line = lines[i - 1];
                if !line_parses(line) {
                    Err(DataSetParseError::DataItemParseError {
                        line_number: (i - 1) as usize,
                        source: line_error(line),
                    })
                } else if prefix.len() > 0 && !fits(prefix[0], line_item(line)) {
                    Err(DataSetParseError::DataSetError {
                        line_number: (i - 1) as usize,
                        source: push_error(prefix[0], line_item(line)),
                    })
                } else {
                    Ok(prefix.push(line_item(line)))
                }
            },
        }
    }
}

/// The views of a sequence of examples.
pub open spec fn views_of(items: Seq<DataItem>) -> Seq<(Seq<char>, Seq<char>)> {
    items.map_values(|d: DataItem| d@)
}

/// An ordered collection of labeled examples, all of one kind and one width.
#[derive(Debug)]
pub struct DataSet(Vec<DataItem>);

impl View for DataSet {
    type V = Seq<DataItem>;

    closed spec fn view(&self) -> Seq<DataItem> {
        self.0@
    }
}

impl DataSet {
    /// Every member fits the first one: one kind, one width.
    pub open spec fn wf(self) -> bool {
        forall|i: int| 0 <= i < self@.len() ==> #[trigger] fits(self@[0]@, self@[i]@)
    }

    /// An empty data set.
    pub fn new() -> (r: DataSet)
        ensures
            r.wf(),
            r@ == Seq::<DataItem>::empty(),
    {
        DataSet(Vec::new())
    }

    /// The number of examples.
    pub fn len(&self) -> (n: usize)
        ensures
            n == self@.len(),
    {
        self.0.len()
    }

    /// The examples, in the order they were added.
    pub fn items(&self) -> (r: &Vec<DataItem>)
        ensures
            r@ == self@,
    {
        &self.0
    }

    /// The example at `index`.
    pub fn get(&self, index: usize) -> (r: &DataItem)
        requires
            index < self@.len(),
        ensures
            *r == self@[index as int],
    {
        &self.0[index]
    }

    /// The width shared by all examples, or None while the set is empty.
    pub fn width(&self) -> (r: Option<usize>)
        ensures
            match r {
                Some(w) => self@.len() > 0 && w == self@[0]@.0.len(),
                None => self@.len() == 0,
            },
    {
        if self.0.len() > 0 {
            Some(self.0[0].width())
        } else {
            None
        }
    }

    /// Add an example at the end. It is refused when its kind differs from
    /// the first example's (HeterogenousData) or, the kind agreeing, its
    /// width differs (LengthMismatch).
    pub fn push(&mut self, data_item: DataItem) -> (r: Result<(), DataSetError>)
        ensures
            r is Ok <==> old(self)@.len() == 0 || fits(old(self)@[0]@, data_item@),
            r is Ok ==> final(self)@ == old(self)@.push(data_item),
            r is Err ==> final(self)@ == old(self)@
                && r == Err::<(), _>(push_error(old(self)@[0]@, data_item@)),
            r == Err::<(), _>(DataSetError::HeterogenousData)
                <==> old(self)@.len() > 0 && seq_is_binary(data_item@.0) != seq_is_binary(old(self)@[0]@.0),
            old(self).wf() && r is Ok ==> final(self).wf(),
    {
        if self.0.len() > 0 {
            let first_binary = self.0[0].is_binary();
            if data_item.is_binary() != first_binary {
                return Err(DataSetError::HeterogenousData);
            }
            if data_item.width() != self.0[0].width() {
                return Err(DataSetError::LengthMismatch);
            }
        }
        proof {
            let s0 = self.0@;
            if s0.len() > 0 {
                assert(fits(s0[0]@, data_item@));
            }
        }
        self.0.push(data_item);
        proof {
            let s0 = old(self)@;
            let s1 = self.0@;
            if old(self).wf() {
                assert forall|i: int| 0 <= i < s1.len() implies #[trigger] fits(s1[0]@, s1[i]@) by {
                    if s0.len() == 0 {
                        assert(s1.len() == 1);
                        assert(s1[0] == data_item);
                    } else {
                        assert(s1[0] == s0[0]);
                        if i < s0.len() {
                            assert(fits(s0[0]@, s0[i]@));
                        }
                    }
                }
            }
        }
        Ok(())
    }

    /// Split the set in two at `percentage` percent (rounded down) of its
    /// length: the first part holds the examples before that index, the
    /// second the rest. A percentage over one hundred is refused.
    pub fn split_at_percentage(self, percentage: usize) -> (r: Result<(DataSet, DataSet), DataSetError>)
        ensures
            r is Ok <==> percentage <= 100,
            r is Err <==> r == Err::<(DataSet, DataSet), _>(DataSetError::InvalidPercentage)
                && percentage > 100,
            r matches Ok((a, b)) ==> ({
                let split = (percentage * self@.len()) / 100;
                &&& a@ == self@.take(split as int)
                &&& b@ == self@.skip(split as int)
            }),
    {
        if percentage > 100 {
            return Err(DataSetError::InvalidPercentage);
        }
        let n = self.0.len();
        proof {
            assert(percentage as u128 * n as u128 <= 100 * 0xFFFF_FFFF_FFFF_FFFFu128) by (nonlinear_arith)
                requires
                    percentage <= 100,
                    n as u128 <= 0xFFFF_FFFF_FFFF_FFFFu128,
            ;
            assert((percentage as u128 * n as u128) / 100 <= n as u128) by (nonlinear_arith)
                requires
                    percentage <= 100,
            ;
        }
        let split128 = (percentage as u128 * n as u128) / 100;
        let split = split128 as usize;
        proof {
            assert(percentage as u128 * n as u128 == (percentage * self@.len()) as u128) by (nonlinear_arith)
                requires
                    percentage <= 100,
                    n == self@.len(),
            ;
            assert(split == (percentage * self@.len()) / 100);
        }
        let mut first_vec: Vec<DataItem> = Vec::new();
        let mut second_vec: Vec<DataItem> = Vec::new();
        let mut index: usize = 0;
        let mut items = self.0;
        while items.len() > 0
            invariant
                index + items.len() == self@.len(),
                self@.len() <= usize::MAX,
                items@ == self@.skip(index as int),
                split <= self@.len(),
                first_vec@ == self@.take(split as int).take(if index < split { index as int } else { split as int }),
                second_vec@ == if index <= split { Seq::<DataItem>::empty() } else {
                    self@.skip(split as int).take(index - split)
                },
            decreases items.len(),
        {
            let item = items.remove(0);
            proof {
                assert(item == self@[index as int]);
                assert(items@ =~= self@.skip(index + 1));
            }
            if index < split {
                first_vec.push(item);
                proof {
                    assert(self@.take(split as int).take(
                        if index + 1 < split { (index + 1) as int } else { split as int })
                        =~= self@.take(split as int).take(index as int).push(self@[index as int]));
                }
            } else {
                second_vec.push(item);
                proof {
                    assert(self@.skip(split as int).take(index + 1 - split)
                        =~= (if index <= split { Seq::<DataItem>::empty() } else {
                            self@.skip(split as int).take(index - split)
                        }).push(self@[index as int]));
                }
            }
            index += 1;
        }
        proof {
            assert(first_vec@ =~= self@.take(split as int));
            assert(second_vec@ =~= self@.skip(split as int));
        }
        Ok((DataSet(first_vec), DataSet(second_vec)))
    }

    /// Read the lines of a data file: the first line is a header and is
    /// skipped, every further line is one labeled example. Reading stops at
    /// the first line that cannot be read or whose example does not fit the
    /// ones before it, naming that line.
    pub fn from_lines(lines: &Vec<String>) -> (r: Result<DataSet, DataSetParseError>)
        ensures
            match r {
                Ok(ds) => ds.wf()
                    && spec_read(lines@.map_values(|l: String| l@), lines@.len() as int)
                        == Ok::<_, DataSetParseError>(views_of(ds@)),
                Err(e) => spec_read(lines@.map_values(|l: String| l@), lines@.len() as int)
                    == Err::<Seq<(Seq<char>, Seq<char>)>, _>(e),
            },
    {
        let ghost lviews = lines@.map_values(|l: String| l@);
        let mut data_set = DataSet::new();
        let mut index: usize = 1;
        proof {
            assert(views_of(data_set@) =~= Seq::<(Seq<char>, Seq<char>)>::empty());
        }
        while index < lines.len()
            invariant
                1 <= index,
                index <= lines.len() || index == 1,
                lviews == lines@.map_values(|l: String| l@),
                lviews.len() == lines@.len(),
                data_set.wf(),
                spec_read(lviews, index as int) == Ok::<_, DataSetParseError>(views_of(data_set@)),
            decreases lines.len() - index,
        {
            let line = &lines[index];
            proof {
                assert(lviews[index as int] == line@);
            }
            match DataItem::parse(line.as_str()) {
                Err(e) => {
                    proof {
                        assert(!line_parses(lviews[index as int]));
                        assert(e == line_error(lviews[index as int]));
                        assert(spec_read(lviews, index + 1) == Err::<Seq<(Seq<char>, Seq<char>)>, _>(
                            DataSetParseError::DataItemParseError { line_number: index, source: e }));
                        assert(spec_read(lviews, lviews.len() as int)
                            == spec_read(lviews, index + 1)) by {
                            lemma_spec_read_stops(lviews, index + 1, lviews.len() as int);
                        }
                    }
                    return Err(DataSetParseError::DataItemParseError {
                        line_number: index,
                        source: e,
                    });
                },
                Ok(item) => {
                    let ghost pre = data_set@;
                    match data_set.push(item) {
                        Err(e2) => {
                            proof {
                                assert(line_parses(lviews[index as int]));
                                assert(item@ == line_item(lviews[index as int]));
                                assert(views_of(pre).len() > 0);
                                assert(views_of(pre)[0] == pre[0]@);
                                assert(spec_read(lviews, index + 1)
                                    == Err::<Seq<(Seq<char>, Seq<char>)>, _>(
                                        DataSetParseError::DataSetError {
                                            line_number: index,
                                            source: e2,
                                        }));
                                assert(spec_read(lviews, lviews.len() as int)
                                    == spec_read(lviews, index + 1)) by {
                                    lemma_spec_read_stops(lviews, index + 1, lviews.len() as int);
                                }
                            }
                            return Err(DataSetParseError::DataSetError {
                                line_number: index,
                                source: e2,
                            });
                        },
                        Ok(()) => {
                            proof {
                                assert(line_parses(lviews[index as int]));
                                assert(item@ == line_item(lviews[index as int]));
                                if pre.len() > 0 {
                                    assert(views_of(pre)[0] == pre[0]@);
                                }
                                assert(views_of(data_set@)
                                    =~= views_of(pre).push(line_item(lviews[index as int])));
                            }
                        },
                    }
                },
            }
            index += 1;
        }
        proof {
            if lines@.len() <= 1 {
                assert(spec_read(lviews, lviews.len() as int) == Ok::<_, DataSetParseError>(
                    Seq::<(Seq<char>, Seq<char>)>::empty()));
                assert(views_of(data_set@) =~= Seq::<(Seq<char>, Seq<char>)>::empty());
            }
        }
        Ok(data_set)
    }
}

/// Once reading the lines has stopped on an error, reading further lines
/// keeps that error.
proof fn lemma_spec_read_stops(lines: Seq<Seq<char>>, i: int, j: int)
    requires
        i <= j,
        spec_read(lines, i) is Err,
    ensures
        spec_read(lines, j) == spec_read(lines, i),
    decreases j - i,
{
    if i < j {
        lemma_spec_read_stops(lines, i, j - 1);
    }
}

} // verus!
