//! A log that can be asked what it holds.
use vstd::prelude::*;
use vstd::string::{StrSliceExecFns, StringExecFns};

verus! {

/// One line of a log, and the module that wrote it.
#[derive(Debug)]
pub struct LogLine {
    pub module: String,
    pub line: String,
}

/// What a [`LogLine`] says.
pub struct LineModel {
    pub module: Seq<char>,
    pub line: Seq<char>,
}

impl View for LogLine {
    type V = LineModel;

    open spec fn view(&self) -> LineModel {
        LineModel { module: self.module@, line: self.line@ }
    }
}

/// What each line says.
pub open spec fn line_seq(lines: Seq<LogLine>) -> Seq<LineModel> {
    Seq::new(lines.len(), |i: int| lines[i]@)
}

/// Whether `part` stands in `text` from place `at` on.
pub open spec fn stands_at(text: Seq<char>, part: Seq<char>, at: int) -> bool {
    0 <= at && at + part.len() <= text.len() && text.subrange(at, at + part.len()) == part
}

/// Whether `part` stands anywhere in `text`.
pub open spec fn contains_text(text: Seq<char>, part: Seq<char>) -> bool {
    exists|at: int| stands_at(text, part, at)
}

/// Whether a line was written by `module` and contains `part`.
pub open spec fn line_matches(line: LineModel, module: Seq<char>, part: Seq<char>) -> bool {
    line.module == module && contains_text(line.line, part)
}

/// How many lines were written by `module` and contain `part`.
pub open spec fn count_matches(lines: Seq<LineModel>, module: Seq<char>, part: Seq<char>) -> nat
    decreases lines.len(),
{
    if lines.len() == 0 {
        0
    } else {
        count_matches(lines.drop_last(), module, part) + (if line_matches(
            lines.last(),
            module,
            part,
        ) {
            1nat
        } else {
            0nat
        })
    }
}

fn part_at(text: &str, part: &str, at: usize) -> (stands: bool)
    requires
        at + part@.len() <= text@.len() <= usize::MAX,
    ensures
        stands == stands_at(text@, part@, at as int),
{
    let len = part.unicode_len();
    let ghost window = text@.subrange(at as int, at + part@.len());
    let mut i: usize = 0;
    while i < len
        invariant
            i <= len,
            len == part@.len(),
            at + len <= text@.len(),
            text@.len() <= usize::MAX,
            window == text@.subrange(at as int, at + part@.len()),
            forall|j: int| 0 <= j < i ==> window[j] == part@[j],
        decreases len - i,
    {
        if text.get_char(at + i) != part.get_char(i) {
            assert(window[i as int] != part@[i as int]);
            return false;
        }
        i = i + 1;
    }
    assert(window =~= part@);
    true
}

fn text_contains(text: &str, part: &str) -> (contains: bool)
    ensures
        contains == contains_text(text@, part@),
{
    let text_len = text.unicode_len();
    let part_len = part.unicode_len();
    if part_len > text_len {
        return false;
    }
    let last: usize = text_len - part_len;
    let mut at: usize = 0;
    loop
        invariant
            text_len == text@.len(),
            part_len == part@.len(),
            last == text_len - part_len,
            at <= last,
            forall|i: int| 0 <= i < at ==> !stands_at(text@, part@, i),
        decreases last - at,
    {
        if part_at(text, part, at) {
            return true;
        }
        if at == last {
            return false;
        }
        at = at + 1;
    }
}

fn text_is(text: &str, other: &str) -> (same: bool)
    ensures
        same == (text@ == other@),
{
    let len = text.unicode_len();
    if len != other.unicode_len() {
        return false;
    }
    let same = part_at(text, other, 0);
    assert(text@.subrange(0, len as int) =~= text@);
    same
}

/// A log of one node.
#[derive(Debug)]
pub struct TestLogger {
    id: String,
    lines: Vec<LogLine>,
}

impl TestLogger {
    /// The name of the node that the log is of.
    pub closed spec fn spec_id(&self) -> Seq<char> {
        self.id@
    }

    /// The lines, the oldest first.
    pub closed spec fn spec_lines(&self) -> Seq<LineModel> {
        line_seq(self.lines@)
    }

    /// An empty log of the node `id`.
    pub fn with_id(id: String) -> (logger: TestLogger)
        ensures
            logger.spec_id() == id@,
            logger.spec_lines() == Seq::<LineModel>::empty(),
    {
        let logger = TestLogger { id, lines: Vec::new() };
        assert(logger.spec_lines() =~= Seq::<LineModel>::empty());
        logger
    }

    /// The name of the node that the log is of.
    pub fn id(&self) -> (id: &str)
        ensures
            id@ == self.spec_id(),
    {
        self.id.as_str()
    }

    /// Adds a line.
    pub fn log(&mut self, module: &str, line: &str)
        ensures
            final(self).spec_id() == old(self).spec_id(),
            final(self).spec_lines() == old(self).spec_lines().push(
                LineModel { module: module@, line: line@ },
            ),
    {
        let ghost before = self.lines@;
        self.lines.push(LogLine { module: String::from_str(module), line: String::from_str(line) });
        assert(line_seq(self.lines@) =~= line_seq(before).push(
            LineModel { module: module@, line: line@ },
        ));
    }

    /// How many lines were written by `module` and contain `part`.
    pub fn count_log_lines(&self, module: &str, part: &str) -> (count: usize)
        ensures
            count == count_matches(self.spec_lines(), module@, part@),
    {
        let ghost all = self.spec_lines();
        let mut count: usize = 0;
        let mut i: usize = 0;
        while i < self.lines.len()
            invariant
                i <= self.lines@.len(),
                all == line_seq(self.lines@),
                count == count_matches(all.take(i as int), module@, part@),
                count <= i,
            decreases self.lines@.len() - i,
        {
            let line = &self.lines[i];
            let matches = text_is(line.module.as_str(), module) && text_contains(
                line.line.as_str(),
                part,
            );
            if matches {
                count = count + 1;
            }
            i = i + 1;
            assert(all.take(i as int).drop_last() =~= all.take(i - 1));
            assert(all.take(i as int).last() == all[i - 1]);
        }
        assert(all.take(i as int) =~= all);
        count
    }
}

} // verus!
