//! The byte tokenizer: splits the input into lines, each a command name and
//! its arguments, honouring comments (`#` to the end of the line) and skip
//! regions (`/` to the next space or line end).

use vstd::prelude::*;

verus! {

pub const NEWLINE: u8 = 10;

pub const CARRIAGE_RETURN: u8 = 13;

pub const SPACE: u8 = 32;

pub const HASH: u8 = 35;

pub const SLASH: u8 = 47;

/// One non-blank line of input: its 1-based number, the command name and the
/// arguments in order.
#[derive(Clone, Debug)]
pub struct Line {
    pub number: usize,
    pub command: Vec<u8>,
    pub args: Vec<Vec<u8>>,
}

pub ghost struct LineModel {
    pub number: nat,
    pub command: Seq<u8>,
    pub args: Seq<Seq<u8>>,
}

pub open spec fn args_view(args: Seq<Vec<u8>>) -> Seq<Seq<u8>> {
    args.map_values(|a: Vec<u8>| a@)
}

impl View for Line {
    type V = LineModel;

    open spec fn view(&self) -> LineModel {
        LineModel { number: self.number as nat, command: self.command@, args: args_view(self.args@) }
    }
}

pub open spec fn lines_view(lines: Seq<Line>) -> Seq<LineModel> {
    lines.map_values(|l: Line| l@)
}

/// What the tokenizer holds between two bytes.
pub ghost struct ScanModel {
    pub comment: bool,
    pub ignore: bool,
    pub token: Seq<u8>,
    pub command: Seq<u8>,
    pub args: Seq<Seq<u8>>,
    pub newlines: nat,
}

pub open spec fn scan_start() -> ScanModel {
    ScanModel {
        comment: false,
        ignore: false,
        token: seq![],
        command: seq![],
        args: seq![],
        newlines: 0,
    }
}

/// A state between lines: no comment or skip region open, nothing gathered.
pub open spec fn at_line_start(s: ScanModel) -> bool {
    &&& !s.comment
    &&& !s.ignore
    &&& s.token.len() == 0
    &&& s.command.len() == 0
    &&& s.args.len() == 0
}

/// One byte of input: the next state, and the line that the byte completes.
pub open spec fn step(s: ScanModel, b: u8) -> (ScanModel, Option<LineModel>) {
    if (s.comment || s.ignore) && b != NEWLINE && !(s.ignore && b == SPACE) {
        (s, None)
    } else if b == NEWLINE {
        let line = if s.command.len() > 0 {
            Some(
                LineModel { number: s.newlines + 1, command: s.command, args: s.args.push(s.token) },
            )
        } else {
            None
        };
        (
            ScanModel {
                comment: false,
                ignore: false,
                token: seq![],
                command: seq![],
                args: seq![],
                newlines: s.newlines + 1,
            },
            line,
        )
    } else if b == SPACE {
        if s.command.len() == 0 {
            (ScanModel { comment: false, ignore: false, token: seq![], command: s.token, ..s }, None)
        } else {
            (
                ScanModel {
                    comment: false,
                    ignore: false,
                    token: seq![],
                    args: s.args.push(s.token),
                    ..s
                },
                None,
            )
        }
    } else if b == HASH {
        (ScanModel { comment: true, ignore: false, ..s }, None)
    } else if b == SLASH {
        (ScanModel { comment: false, ignore: true, ..s }, None)
    } else if b == CARRIAGE_RETURN {
        (ScanModel { comment: false, ignore: false, ..s }, None)
    } else {
        (ScanModel { comment: false, ignore: false, token: s.token.push(b), ..s }, None)
    }
}

/// The state after a run of bytes from `s0`, and the lines completed on the way.
pub open spec fn run(s0: ScanModel, bytes: Seq<u8>) -> (ScanModel, Seq<LineModel>)
    decreases bytes.len(),
{
    if bytes.len() == 0 {
        (s0, seq![])
    } else {
        let (s, out) = run(s0, bytes.drop_last());
        let (s2, line) = step(s, bytes.last());
        (
            s2,
            match line {
                Some(l) => out.push(l),
                None => out,
            },
        )
    }
}

/// The lines of a whole input. A last line without a line end is not among them.
pub open spec fn lines_of(bytes: Seq<u8>) -> Seq<LineModel> {
    run(scan_start(), bytes).1
}

pub proof fn lemma_run_append(s0: ScanModel, a: Seq<u8>, b: Seq<u8>)
    ensures
        run(s0, a + b).0 == run(run(s0, a).0, b).0,
        run(s0, a + b).1 == run(s0, a).1 + run(run(s0, a).0, b).1,
    decreases b.len(),
{
    if b.len() == 0 {
        assert(a + b =~= a);
        assert(run(s0, a).1 + run(run(s0, a).0, b).1 =~= run(s0, a).1);
    } else {
        assert((a + b).drop_last() =~= a + b.drop_last());
        lemma_run_append(s0, a, b.drop_last());
        let mid = run(s0, a).0;
        let (s, out) = run(mid, b.drop_last());
        match step(s, b.last()).1 {
            Some(l) => {
                assert(run(s0, a).1 + out.push(l) =~= (run(s0, a).1 + out).push(l));
            },
            None => {},
        }
    }
}

pub proof fn lemma_run_newlines(s0: ScanModel, bytes: Seq<u8>)
    ensures
        run(s0, bytes).0.newlines <= s0.newlines + bytes.len(),
    decreases bytes.len(),
{
    if bytes.len() > 0 {
        lemma_run_newlines(s0, bytes.drop_last());
    }
}

/// The tokenizer, fed one byte at a time.
#[derive(Clone, Debug)]
pub struct Scanner {
    comment: bool,
    ignore: bool,
    token: Vec<u8>,
    command: Vec<u8>,
    args: Vec<Vec<u8>>,
    newlines: usize,
}

impl View for Scanner {
    type V = ScanModel;

    closed spec fn view(&self) -> ScanModel {
        ScanModel {
            comment: self.comment,
            ignore: self.ignore,
            token: self.token@,
            command: self.command@,
            args: args_view(self.args@),
            newlines: self.newlines as nat,
        }
    }
}

pub open spec fn line_view(o: Option<Line>) -> Option<LineModel> {
    match o {
        Some(l) => Some(l@),
        None => None,
    }
}

impl Scanner {
    pub fn new() -> (r: Scanner)
        ensures
            r@ == scan_start(),
    {
        let r = Scanner {
            comment: false,
            ignore: false,
            token: Vec::new(),
            command: Vec::new(),
            args: Vec::new(),
            newlines: 0,
        };
        assert(r@.args =~= seq![]);
        r
    }

    /// Takes one byte; returns the line that it completes, if any.
    pub fn feed(&mut self, b: u8) -> (r: Option<Line>)
        requires
            old(self)@.newlines < usize::MAX,
        ensures
            (final(self)@, line_view(r)) == step(old(self)@, b),
    {
        if (self.comment || self.ignore) && b != NEWLINE && !(self.ignore && b == SPACE) {
            return None;
        }
        self.comment = false;
        self.ignore = false;
        if b == NEWLINE {
            let mut token: Vec<u8> = Vec::new();
            let mut command: Vec<u8> = Vec::new();
            let mut args: Vec<Vec<u8>> = Vec::new();
            std::mem::swap(&mut token, &mut self.token);
            std::mem::swap(&mut command, &mut self.command);
            std::mem::swap(&mut args, &mut self.args);
            self.newlines = self.newlines + 1;
            assert(self@.args =~= seq![]);
            if command.len() > 0 {
                args.push(token);
                assert(args_view(args@) =~= args_view(old(self).args@).push(old(self).token@));
                Some(Line { number: self.newlines, command, args })
            } else {
                None
            }
        } else if b == SPACE {
            let mut token: Vec<u8> = Vec::new();
            std::mem::swap(&mut token, &mut self.token);
            if self.command.len() == 0 {
                self.command = token;
            } else {
                self.args.push(token);
                assert(args_view(self.args@) =~= args_view(old(self).args@).push(
                    old(self).token@,
                ));
            }
            None
        } else if b == HASH {
            self.comment = true;
            None
        } else if b == SLASH {
            self.ignore = true;
            None
        } else if b == CARRIAGE_RETURN {
            None
        } else {
            self.token.push(b);
            None
        }
    }
}

/// Splits a whole input into its lines.
pub fn scan(input: &[u8]) -> (r: Vec<Line>)
    ensures
        lines_view(r@) == lines_of(input@),
{
    let mut scanner = Scanner::new();
    let mut lines: Vec<Line> = Vec::new();
    let mut i: usize = 0;
    while i < input.len()
        invariant
            i <= input.len(),
            scanner@ == run(scan_start(), input@.take(i as int)).0,
            lines_view(lines@) == run(scan_start(), input@.take(i as int)).1,
        decreases input.len() - i,
    {
        proof {
            lemma_run_newlines(scan_start(), input@.take(i as int));
        }
        let ghost prev = lines@;
        let line = scanner.feed(input[i]);
        assert(input@.take(i + 1).drop_last() =~= input@.take(i as int));
        match line {
            Some(l) => {
                lines.push(l);
                assert(lines_view(lines@) =~= lines_view(prev).push(l@));
            },
            None => {},
        }
        i = i + 1;
    }
    assert(input@.take(i as int) =~= input@);
    lines
}

} // verus!
