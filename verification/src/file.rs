//! Files: identified sequences of values with a movable cursor, and the
//! generator that mints fresh file ids.

pub mod generator;
pub mod id_generator;

use vstd::prelude::*;
use vstd::string::StringExecFns;

use crate::text::parsable_number;
use crate::text::number_val;
use crate::value::{Value, ValueView};

verus! {

/// The model of a file: its id, its contents, and its cursor.
#[verifier::ext_equal]
pub struct FileView {
    pub id: Seq<char>,
    pub contents: Seq<ValueView>,
    pub index: int,
}

/// The cursor lies between 0 and the length of the contents; at the
/// length the file is at its end.
pub open spec fn file_wf(f: FileView) -> bool {
    0 <= f.index <= f.contents.len()
}

/// The value a line of file text stands for: a number when it reads as a
/// signed decimal literal, a keyword otherwise.
pub open spec fn line_value(l: Seq<char>) -> ValueView {
    if parsable_number(l) {
        ValueView::Number(number_val(l))
    } else {
        ValueView::Keyword(l)
    }
}

/// The values of a sequence of lines, empty lines skipped.
pub open spec fn lines_values(lines: Seq<Seq<char>>) -> Seq<ValueView>
    decreases lines.len(),
{
    if lines.len() == 0 {
        Seq::empty()
    } else {
        lines_values(lines.drop_last()) + (if lines.last().len() > 0 {
            seq![line_value(lines.last())]
        } else {
            Seq::empty()
        })
    }
}

/// An identified sequence of values with a cursor.
///
/// Contents are numbers and keywords only. The cursor saturates to
/// `[0, len]`; at `len` the file is at its end.
#[derive(Debug, PartialEq)]
pub struct File {
    pub id: String,
    contents: Vec<Value>,
    index: usize,
}

impl Clone for File {
    /// A file equal to this one in every part of its model.
    fn clone(&self) -> (r: Self)
        ensures
            r@ == self@,
    {
        File { id: self.id.clone(), contents: clone_values(&self.contents), index: self.index }
    }
}

/// A fresh vector with the same values.
pub(crate) fn clone_values(v: &Vec<Value>) -> (r: Vec<Value>)
    ensures
        r@ == v@,
{
    let mut r: Vec<Value> = Vec::new();
    let n = v.len();
    let mut i: usize = 0;
    while i < n
        invariant
            i <= n,
            n == v@.len(),
            r@ == v@.subrange(0, i as int),
        decreases n - i,
    {
        r.push(v[i].clone());
        proof {
            assert(v@.subrange(0, i + 1) =~= v@.subrange(0, i as int).push(v@[i as int]));
        }
        i += 1;
    }
    proof {
        assert(v@.subrange(0, n as int) =~= v@);
    }
    r
}

impl View for File {
    type V = FileView;

    closed spec fn view(&self) -> FileView {
        FileView {
            id: self.id@,
            contents: self.contents@.map_values(|v: Value| v@),
            index: self.index as int,
        }
    }
}

/// Where the cursor lands after moving it by `offset`, saturating to
/// `[0, len]`.
pub open spec fn seek_target(index: int, len: int, offset: int) -> int {
    if index + offset < 0 {
        0
    } else if index + offset > len {
        len
    } else {
        index + offset
    }
}

impl File {
    /// A file with the given id and no contents.
    pub fn new(id: &str) -> (f: Self)
        ensures
            f@.id == id@,
            f@.contents == Seq::<ValueView>::empty(),
            f@.index == 0,
            file_wf(f@),
    {
        let f = File { id: id.to_owned(), contents: Vec::new(), index: 0 };
        proof {
            assert(f@.contents =~= Seq::<ValueView>::empty());
        }
        f
    }

    /// A file with the given id whose contents are the given lines read
    /// as values; empty lines are skipped.
    pub fn new_with_contents(id: &str, contents: &[String]) -> (f: Self)
        ensures
            f@.id == id@,
            f@.contents == lines_values(contents@.map_values(|l: String| l@)),
            f@.index == 0,
            file_wf(f@),
    {
        let ghost lines = contents@.map_values(|l: String| l@);
        let mut values: Vec<Value> = Vec::new();
        let n = contents.len();
        let mut i: usize = 0;
        proof {
            assert(values@.map_values(|v: Value| v@) =~= lines_values(lines.subrange(0, 0)));
        }
        while i < n
            invariant
                i <= n,
                n == contents@.len(),
                lines == contents@.map_values(|l: String| l@),
                values@.map_values(|v: Value| v@) == lines_values(lines.subrange(0, i as int)),
            decreases n - i,
        {
            let line: &String = &contents[i];
            match Value::from_text(line.as_str()) {
                Ok(v) => {
                    values.push(v);
                },
                Err(_) => {},
            }
            proof {
                let pre = lines.subrange(0, i as int);
                let pre1 = lines.subrange(0, i + 1);
                assert(pre1.drop_last() =~= pre);
                assert(pre1.last() == lines[i as int]);
                if lines[i as int].len() > 0 {
                    assert(values@.map_values(|v: Value| v@) =~= lines_values(pre).push(
                        line_value(lines[i as int]),
                    ));
                    assert(lines_values(pre1) =~= lines_values(pre).push(
                        line_value(lines[i as int]),
                    ));
                } else {
                    assert(lines_values(pre1) =~= lines_values(pre));
                }
            }
            i += 1;
        }
        proof {
            assert(lines.subrange(0, n as int) =~= lines);
        }
        File { id: id.to_owned(), contents: values, index: 0 }
    }

    /// The file's id as text.
    pub fn id_text(&self) -> (s: &str)
        ensures
            s@ == self@.id,
    {
        self.id.as_str()
    }

    /// The file's id, read back as a keyword value.
    pub fn id(&self) -> (v: Value)
        ensures
            v@ == ValueView::Keyword(self@.id),
    {
        Value::Keyword(self.id.clone())
    }

    /// The number of values in the file.
    pub fn len(&self) -> (n: usize)
        ensures
            n == self@.contents.len(),
    {
        self.contents.len()
    }

    /// Whether the file has no contents.
    pub fn is_empty(&self) -> (r: bool)
        ensures
            r == (self@.contents.len() == 0),
    {
        self.contents.len() == 0
    }

    /// A clone of the value under the cursor, if the cursor is not at the
    /// end.
    pub fn current(&self) -> (r: Option<Value>)
        ensures
            self@.index < self@.contents.len() ==> (r matches Some(v) && v@
                == self@.contents[self@.index]),
            self@.index >= self@.contents.len() ==> r is None,
    {
        if self.index < self.contents.len() {
            Some(self.contents[self.index].clone())
        } else {
            None
        }
    }

    /// Whether the cursor sits at the end of the contents.
    pub fn is_eof(&self) -> (r: bool)
        ensures
            r == (self@.index == self@.contents.len()),
    {
        self.index == self.contents.len()
    }

    /// Moves the cursor by `offset`, saturating to `[0, len]`.
    pub fn adjust_index(&mut self, offset: i64)
        requires
            file_wf(old(self)@),
        ensures
            final(self)@ == (FileView {
                id: old(self)@.id,
                contents: old(self)@.contents,
                index: seek_target(old(self)@.index, old(self)@.contents.len() as int, offset as int),
            }),
            file_wf(final(self)@),
    {
        let len = self.contents.len();
        if offset >= 0 {
            let step = if (offset as u64) > (usize::MAX as u64) {
                usize::MAX
            } else {
                offset as usize
            };
            self.index = if len - self.index < step {
                len
            } else {
                self.index + step
            };
        } else {
            let back = if offset == i64::MIN {
                9223372036854775808u64
            } else {
                (-offset) as u64
            };
            self.index = if (self.index as u64) < back {
                0
            } else {
                self.index - (back as usize)
            };
        }
    }

    /// Appends the given value to the contents; the cursor stays.
    pub fn append(&mut self, with: &Value)
        ensures
            final(self)@ == (FileView {
                id: old(self)@.id,
                contents: old(self)@.contents.push(with@),
                index: old(self)@.index,
            }),
    {
        self.contents.push(with.clone());
        proof {
            assert(self.contents@.map_values(|v: Value| v@) =~= old(
                self,
            )@.contents.push(with@));
        }
    }

    /// Removes the value under the cursor; at the end of the file nothing
    /// happens.
    pub fn remove_current(&mut self)
        requires
            file_wf(old(self)@),
        ensures
            old(self)@.index < old(self)@.contents.len() ==> final(self)@ == (FileView {
                id: old(self)@.id,
                contents: old(self)@.contents.remove(old(self)@.index),
                index: old(self)@.index,
            }),
            old(self)@.index == old(self)@.contents.len() ==> *final(self) == *old(self),
            file_wf(final(self)@),
    {
        if self.index < self.contents.len() {
            self.contents.remove(self.index);
            proof {
                assert(self.contents@.map_values(|v: Value| v@) =~= old(
                    self,
                )@.contents.remove(old(self)@.index));
            }
        }
    }

    /// Replaces the value under the cursor; at the end of the file the
    /// value is appended instead. The cursor stays.
    pub fn replace_current(&mut self, with: &Value)
        requires
            file_wf(old(self)@),
        ensures
            old(self)@.index < old(self)@.contents.len() ==> final(self)@ == (FileView {
                id: old(self)@.id,
                contents: old(self)@.contents.update(old(self)@.index, with@),
                index: old(self)@.index,
            }),
            old(self)@.index == old(self)@.contents.len() ==> final(self)@ == (FileView {
                id: old(self)@.id,
                contents: old(self)@.contents.push(with@),
                index: old(self)@.index,
            }),
            file_wf(final(self)@),
    {
        if self.index == self.contents.len() {
            self.append(with);
        } else {
            self.contents.remove(self.index);
            self.contents.insert(self.index, with.clone());
            proof {
                assert(self.contents@.map_values(|v: Value| v@) =~= old(
                    self,
                )@.contents.update(old(self)@.index, with@));
            }
        }
    }
}

} // verus!
