//! General-purpose error carrying a human readable message.

use vstd::prelude::*;
use vstd::string::*;
use crate::logging::{frames_text, frames_view, scan_frames, text_lines, TextBacktrace};

verus! {

/// General-purpose opaque error suitable when no inspection is necessary.
#[derive(Clone, Debug)]
pub enum WhateverSync {
    /// Wraps an error, showing the wrapped error's own text.
    Transparent { source: String },
    /// Wraps an error, replacing its text with a message.
    Context { source: String, message: String },
    /// An error represented by a text error message.
    Stringly { message: String },
}

impl WhateverSync {
    /// The text that the error shows.
    pub open spec fn text(self) -> Seq<char> {
        match self {
            WhateverSync::Transparent { source } => source@,
            WhateverSync::Context { message, .. } => message@,
            WhateverSync::Stringly { message } => message@,
        }
    }

    /// An error made of a message alone.
    pub fn without_source(message: String) -> (e: WhateverSync)
        ensures
            e == (WhateverSync::Stringly { message }),
    {
        WhateverSync::Stringly { message }
    }

    /// An error that wraps the text of another error under a message.
    pub fn with_source(source: String, message: String) -> (e: WhateverSync)
        ensures
            e == (WhateverSync::Context { source, message }),
    {
        WhateverSync::Context { source, message }
    }

    /// Renders the error: the wrapped text for a transparent error, the message otherwise.
    pub fn to_string(&self) -> (s: String)
        ensures
            s@ == self.text(),
    {
        match self {
            WhateverSync::Transparent { source } => source.clone(),
            WhateverSync::Context { message, .. } => message.clone(),
            WhateverSync::Stringly { message } => message.clone(),
        }
    }
}

/// Convenience methods for converting results into `Result<T, WhateverSync>`, the error being
/// taken by its text.
pub trait SnafuExt<T>: Sized {
    /// Repacks the error, keeping its text.
    fn whatever(self) -> Result<T, WhateverSync>;
    /// Repacks the error under a message.
    fn whatever_msg(self, message: String) -> Result<T, WhateverSync>;
}

impl<T> SnafuExt<T> for Result<T, String> {
    fn whatever(self) -> (r: Result<T, WhateverSync>)
        ensures
            match self {
                Ok(v) => r == Ok::<T, WhateverSync>(v),
                Err(e) => r == Err::<T, WhateverSync>(WhateverSync::Transparent { source: e }),
            },
    {
        match self {
            Ok(value) => Ok(value),
            Err(err) => Err(WhateverSync::Transparent { source: err }),
        }
    }

    fn whatever_msg(self, message: String) -> (r: Result<T, WhateverSync>)
        ensures
            match self {
                Ok(v) => r == Ok::<T, WhateverSync>(v),
                Err(e) => r == Err::<T, WhateverSync>(WhateverSync::Context { source: e, message }),
            },
    {
        match self {
            Ok(value) => Ok(value),
            Err(err) => Err(WhateverSync::Context { source: err, message }),
        }
    }
}

/// Wraps an error whose debug rendering says more than its display: its text is that rendering.
#[derive(Clone, Debug)]
pub struct WrapDebug {
    /// The debug rendering of the wrapped error.
    pub source: String,
}

impl WrapDebug {
    /// The text that the wrapper shows: the wrapped error's debug rendering.
    pub fn to_string(&self) -> (s: String)
        ensures
            s@ == self.source@,
    {
        self.source.clone()
    }
}

/// The final report of a failed program: the error's text, each of its causes in turn, and the
/// frames of this project's code in the backtrace.
#[derive(Clone, Debug)]
pub struct WhateverReport {
    /// The text of the error.
    pub error: String,
    /// The texts of the error's causes, nearest first.
    pub causes: Vec<String>,
    /// The formatted backtrace captured with the error.
    pub backtrace: String,
}

/// One "Caused by" paragraph per cause, in order.
pub open spec fn causes_text(causes: Seq<Seq<char>>) -> Seq<char>
    decreases causes.len(),
{
    if causes.len() == 0 {
        Seq::empty()
    } else {
        causes_text(causes.drop_last()) + "\n\nCaused by: "@ + causes.last()
    }
}

impl WhateverReport {
    /// The text of the report.
    pub open spec fn report_text(self) -> Seq<char> {
        self.error@ + causes_text(self.causes@.map_values(|c: String| c@)) + "\n\nBacktrace:\n"@
            + frames_text(scan_frames(text_lines(self.backtrace@)).1)
    }

    /// Renders the report: the error, a "Caused by" paragraph per cause, and the backtrace's own
    /// frames.
    pub fn render(&self) -> (s: String)
        ensures
            s@ == self.report_text(),
    {
        let ghost cv = self.causes@.map_values(|c: String| c@);
        let mut s = self.error.clone();
        let mut k: usize = 0;
        while k < self.causes.len()
            invariant
                k <= self.causes@.len(),
                cv == self.causes@.map_values(|c: String| c@),
                s@ == self.error@ + causes_text(cv.take(k as int)),
            decreases self.causes@.len() - k,
        {
            proof {
                let next = cv.take(k + 1);
                assert(next.drop_last() =~= cv.take(k as int));
                assert(next.last() == cv[k as int]);
            }
            s.append("\n\nCaused by: ");
            s.append(self.causes[k].as_str());
            k = k + 1;
        }
        assert(cv.take(self.causes@.len() as int) =~= cv);
        s.append("\n\nBacktrace:\n");
        let frames = TextBacktrace::parse(self.backtrace.as_str());
        let t = frames.to_text();
        s.append(t.as_str());
        s
    }
}

} // verus!
