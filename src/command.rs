//! The session-control commands read from the operator, one line each:
//! `start <width> <height> <threads> <scene> <eye> [<state>]`,
//! `image <scale> <file>`, `stop [<state>]` and `exit`.
//!
//! Words are separated by single spaces. The exposure scale of `image` is
//! read by a parser handed in by the caller, so a command is generic over the
//! type of that number.
use vstd::prelude::*;
use vstd::string::*;
use std::num::{ParseFloatError, ParseIntError};

verus! {

/// std's `ParseIntError`, what `str::parse::<usize>` fails with; carried
/// opaque inside `Error`.
#[verifier::external_type_specification]
#[verifier::external_body]
pub struct ExParseIntError(ParseIntError);

/// std's `ParseFloatError`, what the scale parser fails with; carried opaque
/// inside `Error`.
#[verifier::external_type_specification]
#[verifier::external_body]
pub struct ExParseFloatError(ParseFloatError);

/// The pieces of `s` between single spaces: two spaces in a row give an
/// empty piece, and an empty line gives one empty piece.
pub open spec fn fields(s: Seq<char>) -> Seq<Seq<char>>
    decreases s.len(),
{
    if s.len() == 0 {
        seq![Seq::empty()]
    } else if s.last() == ' ' {
        fields(s.drop_last()).push(Seq::empty())
    } else {
        let f = fields(s.drop_last());
        f.update(f.len() - 1, f.last().push(s.last()))
    }
}

pub open spec fn is_digit(c: char) -> bool {
    '0' <= c && c <= '9'
}

/// The number written by the decimal digits `d`.
pub open spec fn digits_value(d: Seq<char>) -> nat
    decreases d.len(),
{
    if d.len() == 0 {
        0
    } else {
        (digits_value(d.drop_last()) * 10 + (d.last() as int - '0' as int)) as nat
    }
}

/// `s` without a leading `+`.
pub open spec fn unsigned_digits(s: Seq<char>) -> Seq<char> {
    if s.len() > 0 && s[0] == '+' {
        s.drop_first()
    } else {
        s
    }
}

/// `s` is an optional `+` followed by at least one decimal digit and nothing
/// else, and the number fits in `usize`.
pub open spec fn is_count(s: Seq<char>) -> bool {
    let d = unsigned_digits(s);
    &&& d.len() > 0
    &&& forall|i: int| 0 <= i < d.len() ==> #[trigger] is_digit(d[i])
    &&& digits_value(d) <= usize::MAX
}

/// The number that `s` writes, when `is_count(s)`.
pub open spec fn count_value(s: Seq<char>) -> nat {
    digits_value(unsigned_digits(s))
}

/// Relies on `str::parse::<usize>` (`usize::from_str`): it accepts an
/// optional `+` and then ASCII decimal digits whose value fits, and nothing else.
#[verifier::external_body]
fn parse_count(s: &str) -> (r: Result<usize, ParseIntError>)
    ensures
        r is Ok <==> is_count(s@),
        r matches Ok(n) ==> n == count_value(s@),
{
    s.parse::<usize>()
}

/// A command line, read.
#[derive(Debug)]
pub enum Command<F> {
    Start {
        width: usize,
        height: usize,
        threads: usize,
        scene_file: String,
        eye_file: String,
        state_file: Option<String>,
    },
    Image { scale: F, tga_file: String },
    Stop { state_file: Option<String> },
}

/// A line that does not give a command: a request to leave, or an error.
#[derive(Debug)]
pub enum Exception {
    Exit,
    Error(Error),
}

/// What is wrong with a command line.
#[derive(Debug)]
pub enum Error {
    /// A blank command. `recognize` does not give it: an empty line reads as
    /// the empty word, which is unrecognized.
    Empty,
    Unrecognized(String),
    TraceWrongWidth(Option<ParseIntError>),
    TraceWrongHeight(Option<ParseIntError>),
    TraceWrongThreads(Option<ParseIntError>),
    TraceWrongSceneFile,
    TraceWrongEyeFile,
    ImageWrongScale(Option<ParseFloatError>),
    ImageWrongTgaFile,
}

/// The text that `Error::message` gives for `e`.
pub open spec fn message_of(e: Error) -> Seq<char> {
    match e {
        Error::Empty => "command is empty"@,
        Error::Unrecognized(w) => "command '"@ + w@ + "' is unrecognized"@,
        Error::TraceWrongWidth(None) => "start: width is missing"@,
        Error::TraceWrongWidth(Some(_)) => "start: width is not a number"@,
        Error::TraceWrongHeight(None) => "start: height is missing"@,
        Error::TraceWrongHeight(Some(_)) => "start: height is not a number"@,
        Error::TraceWrongThreads(None) => "start: thread count is missing"@,
        Error::TraceWrongThreads(Some(_)) => "start: thread count is not a number"@,
        Error::TraceWrongSceneFile => "start: scene file is missing"@,
        Error::TraceWrongEyeFile => "start: eye file is missing"@,
        Error::ImageWrongScale(None) => "image: scale is missing"@,
        Error::ImageWrongScale(Some(_)) => "image: scale is not a number"@,
        Error::ImageWrongTgaFile => "image: file is missing"@,
    }
}

impl Error {
    /// A line for the operator that says what is wrong.
    pub fn message(&self) -> (r: String)
        ensures
            r@ == message_of(*self),
    {
        match self {
            Error::Empty => String::from_str("command is empty"),
            Error::Unrecognized(w) => {
                let head = String::from_str("command '");
                head.concat(w.as_str()).concat("' is unrecognized")
            },
            Error::TraceWrongWidth(None) => String::from_str("start: width is missing"),
            Error::TraceWrongWidth(Some(_)) => String::from_str("start: width is not a number"),
            Error::TraceWrongHeight(None) => String::from_str("start: height is missing"),
            Error::TraceWrongHeight(Some(_)) => String::from_str("start: height is not a number"),
            Error::TraceWrongThreads(None) => String::from_str("start: thread count is missing"),
            Error::TraceWrongThreads(Some(_)) => String::from_str(
                "start: thread count is not a number",
            ),
            Error::TraceWrongSceneFile => String::from_str("start: scene file is missing"),
            Error::TraceWrongEyeFile => String::from_str("start: eye file is missing"),
            Error::ImageWrongScale(None) => String::from_str("image: scale is missing"),
            Error::ImageWrongScale(Some(_)) => String::from_str("image: scale is not a number"),
            Error::ImageWrongTgaFile => String::from_str("image: file is missing"),
        }
    }
}

/// `o` holds piece `i` of `f` when there is one, and nothing otherwise.
pub open spec fn optional_field(o: Option<String>, f: Seq<Seq<char>>, i: int) -> bool {
    if i < f.len() {
        o matches Some(x) && x@ == f[i]
    } else {
        o is None
    }
}

/// What `recognize` owes for the words `f` of a `start` line.
pub open spec fn start_outcome<F>(f: Seq<Seq<char>>, r: Result<Command<F>, Exception>) -> bool {
    if f.len() < 2 {
        r matches Err(Exception::Error(Error::TraceWrongWidth(None)))
    } else if !is_count(f[1]) {
        r matches Err(Exception::Error(Error::TraceWrongWidth(Some(_))))
    } else if f.len() < 3 {
        r matches Err(Exception::Error(Error::TraceWrongHeight(None)))
    } else if !is_count(f[2]) {
        r matches Err(Exception::Error(Error::TraceWrongHeight(Some(_))))
    } else if f.len() < 4 {
        r matches Err(Exception::Error(Error::TraceWrongThreads(None)))
    } else if !is_count(f[3]) {
        r matches Err(Exception::Error(Error::TraceWrongThreads(Some(_))))
    } else if f.len() < 5 {
        r matches Err(Exception::Error(Error::TraceWrongSceneFile))
    } else if f.len() < 6 {
        r matches Err(Exception::Error(Error::TraceWrongEyeFile))
    } else {
        match r {
            Ok(Command::Start { width, height, threads, scene_file, eye_file, state_file }) => {
                &&& width == count_value(f[1])
                &&& height == count_value(f[2])
                &&& threads == count_value(f[3])
                &&& scene_file@ == f[4]
                &&& eye_file@ == f[5]
                &&& optional_field(state_file, f, 6)
            },
            _ => false,
        }
    }
}

/// `parse_scale` gives `out` for some string that reads `text`.
pub open spec fn scale_read<F, P: Fn(String) -> Result<F, ParseFloatError>>(
    parse_scale: P,
    text: Seq<char>,
    out: Result<F, ParseFloatError>,
) -> bool {
    exists|x: String| x@ == text && #[trigger] parse_scale.ensures((x,), out)
}

/// What `recognize` owes for the words `f` of an `image` line.
pub open spec fn image_outcome<F, P: Fn(String) -> Result<F, ParseFloatError>>(
    f: Seq<Seq<char>>,
    parse_scale: P,
    r: Result<Command<F>, Exception>,
) -> bool {
    if f.len() < 2 {
        r matches Err(Exception::Error(Error::ImageWrongScale(None)))
    } else {
        match r {
            Err(Exception::Error(Error::ImageWrongScale(Some(e)))) => scale_read(
                parse_scale,
                f[1],
                Err(e),
            ),
            Err(Exception::Error(Error::ImageWrongTgaFile)) => f.len() < 3 && exists|v: F|
                #[trigger] scale_read(parse_scale, f[1], Ok(v)),
            Ok(Command::Image { scale, tga_file }) => {
                &&& f.len() >= 3
                &&& tga_file@ == f[2]
                &&& scale_read(parse_scale, f[1], Ok(scale))
            },
            _ => false,
        }
    }
}

/// What `recognize` owes for the line `s`.
pub open spec fn recognized<F, P: Fn(String) -> Result<F, ParseFloatError>>(
    s: Seq<char>,
    parse_scale: P,
    r: Result<Command<F>, Exception>,
) -> bool {
    let f = fields(s);
    let word = f[0];
    if word == "exit"@ {
        r matches Err(Exception::Exit)
    } else if word == "start"@ {
        start_outcome(f, r)
    } else if word == "image"@ {
        image_outcome(f, parse_scale, r)
    } else if word == "stop"@ {
        match r {
            Ok(Command::Stop { state_file }) => optional_field(state_file, f, 1),
            _ => false,
        }
    } else {
        match r {
            Err(Exception::Error(Error::Unrecognized(w))) => w@ == word,
            _ => false,
        }
    }
}

proof fn lemma_fields_nonempty(s: Seq<char>)
    ensures
        fields(s).len() >= 1,
    decreases s.len(),
{
    if s.len() > 0 {
        lemma_fields_nonempty(s.drop_last());
    }
}

/// The pieces of `s` between single spaces.
pub fn split_fields(s: &str) -> (r: Vec<String>)
    ensures
        r@.map_values(|x: String| x@) == fields(s@),
{
    let n = s.unicode_len();
    let mut out: Vec<String> = Vec::new();
    let mut start: usize = 0;
    let mut i: usize = 0;
    assert(s@.take(0) =~= Seq::<char>::empty());
    assert(out@.map_values(|x: String| x@).push(s@.subrange(0, 0)) =~= seq![Seq::<char>::empty()]);
    while i < n
        invariant
            i <= n,
            n == s@.len(),
            start <= i,
            fields(s@.take(i as int)) == out@.map_values(|x: String| x@).push(
                s@.subrange(start as int, i as int),
            ),
        decreases n - i,
    {
        let c = s.get_char(i);
        let ghost prev = s@.take(i as int);
        let ghost next = s@.take(i + 1);
        proof {
            assert(next.drop_last() =~= prev);
            assert(next.last() == c);
            lemma_fields_nonempty(prev);
        }
        if c == ' ' {
            let piece = s.substring_char(start, i).to_owned();
            out.push(piece);
            start = i + 1;
            proof {
                assert(s@.subrange(start as int, i + 1) =~= Seq::<char>::empty());
            }
        } else {
            proof {
                assert(s@.subrange(start as int, i + 1) =~= s@.subrange(start as int, i as int).push(c));
            }
        }
        i = i + 1;
    }
    let last = s.substring_char(start, n).to_owned();
    out.push(last);
    assert(s@.take(n as int) =~= s@);
    assert(out@.map_values(|x: String| x@) =~= fields(s@));
    out
}

impl<F> Command<F> {
    /// Reads one command line. The scale of `image` goes through `parse_scale`.
    /// Any first word but the four commands is `Error::Unrecognized` with that
    /// word; an empty line has the empty word first. Missing or unreadable arguments
    /// give the error of the first one that is wrong; words after the last
    /// argument are ignored.
    pub fn recognize<P: Fn(String) -> Result<F, ParseFloatError>>(s: &str, parse_scale: P) -> (r:
        Result<Self, Exception>)
        requires
            forall|x: String| #[trigger] parse_scale.requires((x,)),
        ensures
            recognized(s@, parse_scale, r),
    {
        let f = split_fields(s);
        let ghost fs = fields(s@);
        proof {
            lemma_fields_nonempty(s@);
            assert(f@.len() == fs.len());
            assert forall|i: int| 0 <= i < f@.len() implies #[trigger] f@[i]@ == fs[i] by {
                assert(f@.map_values(|x: String| x@)[i] == f@[i]@);
            }
        }
        let word = f[0].clone();
        if word == String::from_str("exit") {
            Err(Exception::Exit)
        } else if word == String::from_str("start") {
            Self::recognize_start(&f)
        } else if word == String::from_str("image") {
            if f.len() < 2 {
                return Err(Exception::Error(Error::ImageWrongScale(None)));
            }
            let text = f[1].clone();
            let ghost text_copy = text;
            let read = parse_scale(text);
            proof {
                assert(text_copy@ == fs[1]);
                assert(parse_scale.ensures((text_copy,), read));
                assert(scale_read(parse_scale, fs[1], read));
            }
            match read {
                Err(e) => Err(Exception::Error(Error::ImageWrongScale(Some(e)))),
                Ok(scale) => {
                    if f.len() < 3 {
                        Err(Exception::Error(Error::ImageWrongTgaFile))
                    } else {
                        Ok(Command::Image { scale, tga_file: f[2].clone() })
                    }
                },
            }
        } else if word == String::from_str("stop") {
            let state_file = if f.len() > 1 {
                Some(f[1].clone())
            } else {
                None
            };
            Ok(Command::Stop { state_file })
        } else {
            Err(Exception::Error(Error::Unrecognized(word)))
        }
    }

    fn recognize_start(f: &Vec<String>) -> (r: Result<Self, Exception>)
        ensures
            start_outcome(f@.map_values(|x: String| x@), r),
    {
        let ghost fs = f@.map_values(|x: String| x@);
        if f.len() < 2 {
            return Err(Exception::Error(Error::TraceWrongWidth(None)));
        }
        assert(fs[1] == f@[1]@);
        let width = match parse_count(f[1].as_str()) {
            Ok(v) => v,
            Err(e) => {
                return Err(Exception::Error(Error::TraceWrongWidth(Some(e))));
            },
        };
        if f.len() < 3 {
            return Err(Exception::Error(Error::TraceWrongHeight(None)));
        }
        assert(fs[2] == f@[2]@);
        let height = match parse_count(f[2].as_str()) {
            Ok(v) => v,
            Err(e) => {
                return Err(Exception::Error(Error::TraceWrongHeight(Some(e))));
            },
        };
        if f.len() < 4 {
            return Err(Exception::Error(Error::TraceWrongThreads(None)));
        }
        assert(fs[3] == f@[3]@);
        let threads = match parse_count(f[3].as_str()) {
            Ok(v) => v,
            Err(e) => {
                return Err(Exception::Error(Error::TraceWrongThreads(Some(e))));
            },
        };
        if f.len() < 5 {
            return Err(Exception::Error(Error::TraceWrongSceneFile));
        }
        if f.len() < 6 {
            return Err(Exception::Error(Error::TraceWrongEyeFile));
        }
        assert(fs[4] == f@[4]@);
        assert(fs[5] == f@[5]@);
        let state_file = if f.len() > 6 {
            assert(fs[6] == f@[6]@);
            Some(f[6].clone())
        } else {
            None
        };
        Ok(
            Command::Start {
                width,
                height,
                threads,
                scene_file: f[4].clone(),
                eye_file: f[5].clone(),
                state_file,
            },
        )
    }
}

} // verus!
