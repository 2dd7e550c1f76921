//! Reading the text of a captured backtrace: the frames of this project's own code.

use vstd::prelude::*;
use vstd::string::*;
use crate::text::{is_prefix, starts_with};

verus! {

broadcast use vstd::string::group_string_axioms;

/// Pattern of a backtrace line that names a frame's function.
pub const FUNCTION_LINE: &'static str = r"^\s*\d+: (.*)$";

/// Pattern of a backtrace line that gives a frame's source location.
pub const LOCATION_LINE: &'static str = r"^\s*at (.*)$";

/// Source locations of this project's code start with this prefix; others belong to libraries.
pub const OWN_CODE_PREFIX: &'static str = "./crates/";

/// What the first capture group of `pattern` matches in `text`, as computed by the `regex`
/// crate: nothing when the pattern does not compile, does not match, or its first group does
/// not take part in the match.
pub uninterp spec fn regex_first_group(pattern: Seq<char>, text: Seq<char>) -> Option<Seq<char>>;

/// Calls `regex::Regex::new` with `pattern`, then `captures` on `text`, and reads the first
/// group. The contract names the result; regular expression matching is not restated here.
#[verifier::external_body]
fn first_capture(pattern: &str, text: &str) -> (r: Option<String>)
    ensures
        match r {
            Some(s) => regex_first_group(pattern@, text@) == Some(s@),
            None => regex_first_group(pattern@, text@) is None,
        },
{
    match regex::Regex::new(pattern) {
        Ok(re) => match re.captures(text) {
            Some(caps) => match caps.get(1) {
                Some(m) => Some(m.as_str().to_string()),
                None => None,
            },
            None => None,
        },
        Err(_) => None,
    }
}

/// A line without its carriage return, if it ends with one.
pub open spec fn strip_cr(line: Seq<char>) -> Seq<char> {
    if line.len() > 0 && line.last() == '\r' { line.drop_last() } else { line }
}

/// The lines of a text read so far, and the line being read.
pub open spec fn scan_lines(s: Seq<char>) -> (Seq<Seq<char>>, Seq<char>)
    decreases s.len(),
{
    if s.len() == 0 {
        (Seq::empty(), Seq::empty())
    } else {
        let (done, cur) = scan_lines(s.drop_last());
        if s.last() == '\n' {
            (done.push(strip_cr(cur)), Seq::empty())
        } else {
            (done, cur.push(s.last()))
        }
    }
}

/// The lines of a text, as `str::lines` gives them: split after each '\n', with the '\n' and a
/// '\r' before it removed, and no empty line after a final '\n'.
pub open spec fn text_lines(s: Seq<char>) -> Seq<Seq<char>> {
    let (done, cur) = scan_lines(s);
    if cur.len() > 0 { done.push(cur) } else { done }
}

/// Splits a text into lines, as `str::lines` does.
pub fn split_lines(s: &str) -> (r: Vec<String>)
    ensures
        r@.map_values(|l: String| l@) == text_lines(s@),
{
    let n = s.unicode_len();
    let mut lines: Vec<String> = Vec::new();
    let mut start: usize = 0;
    let mut i: usize = 0;
    while i < n
        invariant
            n == s@.len(),
            start <= i <= n,
            lines@.map_values(|l: String| l@) == scan_lines(s@.take(i as int)).0,
            scan_lines(s@.take(i as int)).1 == s@.subrange(start as int, i as int),
        decreases n - i,
    {
        let c = s.get_char(i);
        proof {
            let next = s@.take(i + 1);
            assert(next.drop_last() =~= s@.take(i as int));
            assert(next.last() == s@[i as int]);
        }
        if c == '\n' {
            let mut end = i;
            if end > start && s.get_char(end - 1) == '\r' {
                end = end - 1;
            }
            let line = String::from_str(s.substring_char(start, end));
            let ghost before = lines@.map_values(|l: String| l@);
            lines.push(line);
            proof {
                let cur = s@.subrange(start as int, i as int);
                if i > start && s@[i - 1] == '\r' {
                    assert(cur.last() == s@[i - 1]);
                    assert(cur.drop_last() =~= s@.subrange(start as int, i - 1));
                }
                assert(lines@.map_values(|l: String| l@) =~= before.push(strip_cr(cur)));
            }
            start = i + 1;
            proof {
                assert(s@.subrange(start as int, i + 1) =~= Seq::<char>::empty());
            }
        } else {
            proof {
                assert(s@.subrange(start as int, i as int).push(c) =~= s@.subrange(start as int, i + 1));
            }
        }
        i = i + 1;
    }
    assert(s@.take(n as int) =~= s@);
    if start < n {
        let ghost before = lines@.map_values(|l: String| l@);
        lines.push(String::from_str(s.substring_char(start, n)));
        assert(lines@.map_values(|l: String| l@) =~= before.push(s@.subrange(start as int, n as int)));
    } else {
        assert(s@.subrange(start as int, n as int) =~= Seq::<char>::empty());
    }
    lines
}

/// One frame of a backtrace: the function and its source location.
#[derive(Clone, Debug)]
pub struct TextFrame {
    pub fun: String,
    pub loc: String,
}

/// The frames of a backtrace that belong to this project's code, in order.
#[derive(Clone, Debug)]
pub struct TextBacktrace {
    pub frames: Vec<TextFrame>,
}

/// Reads backtrace lines in order: a function line sets the current function; a location line
/// that follows some function line gives a frame of that function, kept when the location is
/// in this project's code.
pub open spec fn scan_frames(lines: Seq<Seq<char>>) -> (Option<Seq<char>>, Seq<(Seq<char>, Seq<char>)>)
    decreases lines.len(),
{
    if lines.len() == 0 {
        (None, Seq::empty())
    } else {
        let (function, frames) = scan_frames(lines.drop_last());
        let line = lines.last();
        match regex_first_group(FUNCTION_LINE@, line) {
            Some(fun) => (Some(fun), frames),
            None => match (function, regex_first_group(LOCATION_LINE@, line)) {
                (Some(fun), Some(loc)) => if is_prefix(OWN_CODE_PREFIX@, loc) {
                    (function, frames.push((fun, loc)))
                } else {
                    (function, frames)
                },
                _ => (function, frames),
            },
        }
    }
}

/// The frames as (function, location) pairs.
pub open spec fn frames_view(frames: Seq<TextFrame>) -> Seq<(Seq<char>, Seq<char>)> {
    frames.map_values(|f: TextFrame| (f.fun@, f.loc@))
}

/// The text of a list of frames: per frame, the function, then "    at " and the location on the
/// next line.
pub open spec fn frames_text(frames: Seq<(Seq<char>, Seq<char>)>) -> Seq<char>
    decreases frames.len(),
{
    if frames.len() == 0 {
        Seq::empty()
    } else {
        frames_text(frames.drop_last()) + frames.last().0 + "\n    at "@ + frames.last().1 + "\n"@
    }
}

impl TextBacktrace {
    /// Scrapes and filters formatted output of a backtrace.
    pub fn parse(backtrace: &str) -> (r: TextBacktrace)
        ensures
            frames_view(r.frames@) == scan_frames(text_lines(backtrace@)).1,
    {
        let lines = split_lines(backtrace);
        let ghost lv = lines@.map_values(|l: String| l@);
        let mut frames: Vec<TextFrame> = Vec::new();
        let mut function: Option<String> = None;
        let mut k: usize = 0;
        while k < lines.len()
            invariant
                k <= lines@.len(),
                lv == lines@.map_values(|l: String| l@),
                (match function { Some(f) => Some(f@), None => None::<Seq<char>> }, frames_view(frames@))
                    == scan_frames(lv.take(k as int)),
            decreases lines@.len() - k,
        {
            let line = lines[k].as_str();
            proof {
                let next = lv.take(k + 1);
                assert(next.drop_last() =~= lv.take(k as int));
                assert(next.last() == lv[k as int]);
            }
            match first_capture(FUNCTION_LINE, line) {
                Some(fun) => {
                    function = Some(fun);
                },
                None => {
                    let loc = first_capture(LOCATION_LINE, line);
                    match (&function, loc) {
                        (Some(fun), Some(loc)) => {
                            if starts_with(loc.as_str(), OWN_CODE_PREFIX) {
                                let ghost before = frames_view(frames@);
                                frames.push(TextFrame { fun: fun.clone(), loc });
                                assert(frames_view(frames@) =~= before.push((fun@, loc@)));
                            }
                        },
                        _ => {},
                    }
                },
            }
            k = k + 1;
        }
        assert(lv.take(lines@.len() as int) =~= lv);
        TextBacktrace { frames }
    }

    /// Formats the backtrace as text.
    pub fn to_text(&self) -> (s: String)
        ensures
            s@ == frames_text(frames_view(self.frames@)),
    {
        let ghost fv = frames_view(self.frames@);
        let mut s = String::new();
        let mut k: usize = 0;
        while k < self.frames.len()
            invariant
                k <= self.frames@.len(),
                fv == frames_view(self.frames@),
                s@ == frames_text(fv.take(k as int)),
            decreases self.frames@.len() - k,
        {
            proof {
                let next = fv.take(k + 1);
                assert(next.drop_last() =~= fv.take(k as int));
                assert(next.last() == fv[k as int]);
            }
            s.append(self.frames[k].fun.as_str());
            s.append("\n    at ");
            s.append(self.frames[k].loc.as_str());
            s.append("\n");
            k = k + 1;
        }
        assert(fv.take(self.frames@.len() as int) =~= fv);
        s
    }
}

/// Every frame that parsing keeps lies in this project's code.
pub proof fn law_parsed_frames_are_own_code(lines: Seq<Seq<char>>)
    ensures
        forall|i: int| 0 <= i < scan_frames(lines).1.len() ==> is_prefix(OWN_CODE_PREFIX@, #[trigger] scan_frames(lines).1[i].1),
    decreases lines.len(),
{
    if lines.len() > 0 {
        law_parsed_frames_are_own_code(lines.drop_last());
        let prev = scan_frames(lines.drop_last()).1;
        assert forall|i: int| 0 <= i < scan_frames(lines).1.len() implies is_prefix(OWN_CODE_PREFIX@, #[trigger] scan_frames(lines).1[i].1) by {
            if i < prev.len() {
                assert(scan_frames(lines).1[i] == prev[i]);
            }
        }
    }
}

} // verus!
