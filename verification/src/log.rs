use vstd::prelude::*;

use crate::text;

verus! {

/// How much the programs log, from everything (`Debug`) to only irrecoverable failures (`Fatal`).
#[derive(Debug, Copy, Clone, PartialEq, Eq, PartialOrd, Ord, Structural)]
pub enum Verbosity {
    Debug,
    Info,
    Warn,
    Error,
    Fatal,
}

/// The name of each level, as it is written on the command line.
pub open spec fn verbosity_name(v: Verbosity) -> Seq<char> {
    match v {
        Verbosity::Debug => "debug"@,
        Verbosity::Info => "info"@,
        Verbosity::Warn => "warn"@,
        Verbosity::Error => "error"@,
        Verbosity::Fatal => "fatal"@,
    }
}

/// The rank of each level, from 0 for `Debug` to 4 for `Fatal`.
pub open spec fn verbosity_rank(v: Verbosity) -> u8 {
    match v {
        Verbosity::Debug => 0,
        Verbosity::Info => 1,
        Verbosity::Warn => 2,
        Verbosity::Error => 3,
        Verbosity::Fatal => 4,
    }
}

/// What `Verbosity::from_str` gives: the level whose name is exactly `s`, or the message
/// `Invalid variant: <s>`.
pub open spec fn parse_verbosity(s: Seq<char>) -> Result<Verbosity, Seq<char>> {
    if s == "debug"@ {
        Ok(Verbosity::Debug)
    } else if s == "info"@ {
        Ok(Verbosity::Info)
    } else if s == "warn"@ {
        Ok(Verbosity::Warn)
    } else if s == "error"@ {
        Ok(Verbosity::Error)
    } else if s == "fatal"@ {
        Ok(Verbosity::Fatal)
    } else {
        Err("Invalid variant: "@ + s)
    }
}

impl Verbosity {
    /// The name of the level.
    pub fn name(&self) -> (s: &'static str)
        ensures
            s@ == verbosity_name(*self),
    {
        match self {
            Verbosity::Debug => "debug",
            Verbosity::Info => "info",
            Verbosity::Warn => "warn",
            Verbosity::Error => "error",
            Verbosity::Fatal => "fatal",
        }
    }

    /// The rank of the level: a message of level `l` is shown when `l.level()` is at least
    /// the rank of the verbosity that was asked for.
    pub fn level(&self) -> (r: u8)
        ensures
            r == verbosity_rank(*self),
    {
        match self {
            Verbosity::Debug => 0,
            Verbosity::Info => 1,
            Verbosity::Warn => 2,
            Verbosity::Error => 3,
            Verbosity::Fatal => 4,
        }
    }

    /// Whether a message of this level is shown when the verbosity asked for is `threshold`.
    pub fn shows_at(&self, threshold: Verbosity) -> (r: bool)
        ensures
            r == (verbosity_rank(*self) >= verbosity_rank(threshold)),
    {
        self.level() >= threshold.level()
    }

    /// Reads a level from its name.
    pub fn from_str(s: &str) -> (r: Result<Verbosity, String>)
        ensures
            match r {
                Ok(v) => parse_verbosity(s@) == Ok::<Verbosity, Seq<char>>(v),
                Err(m) => parse_verbosity(s@) == Err::<Verbosity, Seq<char>>(m@),
            },
    {
        let chars = text::chars_of(s);
        if text::chars_eq_str(&chars, "debug") {
            Ok(Verbosity::Debug)
        } else if text::chars_eq_str(&chars, "info") {
            Ok(Verbosity::Info)
        } else if text::chars_eq_str(&chars, "warn") {
            Ok(Verbosity::Warn)
        } else if text::chars_eq_str(&chars, "error") {
            Ok(Verbosity::Error)
        } else if text::chars_eq_str(&chars, "fatal") {
            Ok(Verbosity::Fatal)
        } else {
            let mut msg: Vec<char> = Vec::new();
            text::push_str(&mut msg, "Invalid variant: ");
            text::push_str(&mut msg, s);
            proof {
                assert(msg@ =~= "Invalid variant: "@ + s@);
            }
            Err(text::string_of(&msg))
        }
    }
}

/// Reading back the name of a level gives the level.
pub proof fn lemma_verbosity_roundtrip(v: Verbosity)
    ensures
        parse_verbosity(verbosity_name(v)) == Ok::<Verbosity, Seq<char>>(v),
{
    reveal_strlit("debug");
    reveal_strlit("info");
    reveal_strlit("warn");
    reveal_strlit("error");
    reveal_strlit("fatal");
    assert("debug"@ != "info"@ && "debug"@ != "warn"@ && "debug"@ != "error"@ && "debug"@ != "fatal"@) by {
        assert("debug"@.len() == 5 && "info"@.len() == 4 && "warn"@.len() == 4);
        assert("debug"@[0] != "error"@[0] && "debug"@[0] != "fatal"@[0]);
    }
    assert("info"@ != "warn"@ && "info"@ != "error"@ && "info"@ != "fatal"@) by {
        assert("info"@[0] != "warn"@[0] && "info"@.len() != "error"@.len());
        assert("info"@.len() != "fatal"@.len());
    }
    assert("warn"@ != "error"@ && "warn"@ != "fatal"@) by {
        assert("warn"@.len() != "error"@.len() && "warn"@.len() != "fatal"@.len());
    }
    assert("error"@ != "fatal"@) by {
        assert("error"@[0] != "fatal"@[0]);
    }
}

} // verus!
