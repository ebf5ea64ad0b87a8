use vstd::prelude::*;

use crate::request::{lines_view, parse_request, parse_spec, ParseError, Request, CR, LF};
use crate::wire::{copy_range, crlf};

verus! {

/// What reading one more line of the header block leads to.
#[derive(PartialEq, Eq, Structural, Clone, Copy, Debug)]
pub enum ReadStep {
    /// A header line was taken; read the next one.
    More,
    /// The blank line that ends the header block was read.
    Complete,
    /// The stream ended before any byte came: the peer just went away.
    Closed,
    /// The stream ended inside the header block, or a line did not end
    /// with `\r\n`.
    Malformed,
}

/// `line` ends with `\r\n`.
pub open spec fn ends_with_crlf(line: Seq<u8>) -> bool {
    line.len() >= 2 && line[line.len() - 2] == CR && line[line.len() - 1] == LF
}

/// `line` without its final `\r\n`.
pub open spec fn line_content(line: Seq<u8>) -> Seq<u8> {
    line.take(line.len() - 2)
}

/// What reading `line` leads to after `lines` were taken; an empty `line`
/// stands for the end of the stream.
pub open spec fn read_step(lines: Seq<Seq<u8>>, line: Seq<u8>) -> ReadStep {
    if line.len() == 0 {
        if lines.len() == 0 {
            ReadStep::Closed
        } else {
            ReadStep::Malformed
        }
    } else if line == crlf() {
        ReadStep::Complete
    } else if ends_with_crlf(line) {
        ReadStep::More
    } else {
        ReadStep::Malformed
    }
}

/// The lines taken once `line` was read after `lines`.
pub open spec fn lines_after(lines: Seq<Seq<u8>>, line: Seq<u8>) -> Seq<Seq<u8>> {
    if read_step(lines, line) == ReadStep::More {
        lines.push(line_content(line))
    } else {
        lines
    }
}

/// The header block of one connection, as it is read line by line.
#[derive(Debug)]
pub struct Connection {
    lines: Vec<Vec<u8>>,
}

impl View for Connection {
    type V = Seq<Seq<u8>>;

    /// The lines taken so far, without their `\r\n`.
    closed spec fn view(&self) -> Seq<Seq<u8>> {
        lines_view(self.lines@)
    }
}

impl Connection {
    /// A connection on which nothing was read yet.
    pub fn new() -> (r: Connection)
        ensures
            r@ == Seq::<Seq<u8>>::empty(),
    {
        let r = Connection { lines: Vec::new() };
        assert(r@ =~= Seq::<Seq<u8>>::empty());
        r
    }

    /// Takes one line read from the stream, with its line terminator; an
    /// empty `line` means that the stream ended.
    pub fn read_line(&mut self, line: &[u8]) -> (r: ReadStep)
        ensures
            r == read_step(old(self)@, line@),
            final(self)@ == lines_after(old(self)@, line@),
    {
        let n: usize = line.len();
        if n == 0 {
            return if self.lines.len() == 0 {
                ReadStep::Closed
            } else {
                ReadStep::Malformed
            };
        }
        if n < 2 || line[n - 2] != CR || line[n - 1] != LF {
            assert(line@ != crlf() && !ends_with_crlf(line@));
            return ReadStep::Malformed;
        }
        if n == 2 {
            assert(line@ =~= crlf());
            return ReadStep::Complete;
        }
        assert(line@ != crlf());
        let content = copy_range(line, 0, n - 2);
        let ghost before = self@;
        self.lines.push(content);
        assert(self@ =~= before.push(line_content(line@)));
        ReadStep::More
    }

    /// Parses the header block taken so far.
    pub fn read_req(&self) -> (r: Result<Request, ParseError>)
        ensures
            match r {
                Ok(req) => parse_spec(self@) == Some(req@),
                Err(_) => parse_spec(self@).is_none(),
            },
    {
        parse_request(&self.lines)
    }
}

} // verus!
