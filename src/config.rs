//! The run's configuration, taken from the invocation's arguments.
use vstd::prelude::*;
use vstd::string::*;
use crate::text::chars_of;

verus! {

/// Why a run stops.
#[derive(Debug)]
pub enum ToolError {
    /// Fewer than three arguments after the invocation name; holds the usage message.
    MissingArguments(String),
    /// The script count is not a whole number from 1 to 255; holds the argument as given.
    InvalidArgument(String),
    /// The dataset file could not be read; holds its path.
    DatasetNotFound(String),
    /// The template body could not be read; holds its path.
    TemplateNotFound(String),
    /// A generated script could not be written; holds its path.
    OutputWriteFailure(String),
    /// The output directory could not be created; holds its path.
    DirectoryCreateFailure(String),
}

/// What a run is asked to do.
#[derive(Debug)]
pub struct Config {
    /// How many scripts to generate; at least one.
    pub script_count: u8,
    /// The dataset's filename, under the dataset directory.
    pub dataset_file: String,
    /// The template body's filename, under the template directory.
    pub template_file: String,
}

pub open spec fn is_digit(c: char) -> bool {
    '0' <= c <= '9'
}

/// The number written by the decimal digits `s`.
pub open spec fn digits_value(s: Seq<char>) -> nat
    decreases s.len(),
{
    if s.len() == 0 {
        0
    } else {
        digits_value(s.drop_last()) * 10 + (s.last() as nat - '0' as nat) as nat
    }
}

/// `s` without one leading plus sign.
pub open spec fn unsigned_digits(s: Seq<char>) -> Seq<char> {
    if s.len() > 0 && s[0] == '+' {
        s.drop_first()
    } else {
        s
    }
}

/// The `u8` that `s` writes in decimal, with an optional leading `+`; `None` when `s` is
/// empty, holds anything but digits there, or writes a number above 255.
pub open spec fn parsed_u8(s: Seq<char>) -> Option<u8> {
    let d = unsigned_digits(s);
    if d.len() > 0 && (forall|i: int| 0 <= i < d.len() ==> is_digit(#[trigger] d[i]))
        && digits_value(d) <= 255 {
        Some(digits_value(d) as u8)
    } else {
        None
    }
}

/// The script count that the argument `s` asks for, when it is a valid one (1 to 255).
pub open spec fn script_count_of(s: Seq<char>) -> Option<u8> {
    match parsed_u8(s) {
        Some(n) => if n >= 1 {
            Some(n)
        } else {
            None
        },
        None => None,
    }
}

/// The invocation name: the first argument, or nothing when there is none.
pub open spec fn invocation_name(args: Seq<String>) -> Seq<char> {
    if args.len() > 0 {
        args[0]@
    } else {
        Seq::<char>::empty()
    }
}

/// The usage message shown to an invocation named `name`.
pub open spec fn usage_message(name: Seq<char>) -> Seq<char> {
    "Not enough arguments!\nArguments must be amount of scripts to create, animation data filename and filename for python script body\nEg. "@
        + name + ".exe \"1\" \"noWeaponAnims.txt\" \"batchrender-noweapons.py\""@
}

/// Reads a decimal `u8`, as `str::parse::<u8>` does.
pub fn parse_u8(s: &str) -> (r: Option<u8>)
    ensures
        r == parsed_u8(s@),
{
    let v = chars_of(s);
    let start: usize = if v.len() > 0 && v[0] == '+' {
        1
    } else {
        0
    };
    let ghost d = unsigned_digits(s@);
    assert(d =~= v@.subrange(start as int, v.len() as int));
    if start == v.len() {
        return None;
    }
    let mut value: u16 = 0;
    let mut over = false;
    let mut k: usize = start;
    assert(v@.subrange(start as int, start as int) =~= Seq::<char>::empty());
    while k < v.len()
        invariant
            v@ == s@,
            start <= k <= v.len(),
            d == v@.subrange(start as int, v.len() as int),
            d == unsigned_digits(s@),
            forall|i: int| start <= i < k ==> is_digit(#[trigger] v@[i]),
            over <==> digits_value(v@.subrange(start as int, k as int)) > 255,
            !over ==> value == digits_value(v@.subrange(start as int, k as int)),
        decreases v.len() - k,
    {
        let c = v[k];
        if !('0' <= c && c <= '9') {
            let ghost w: int = k - start;
            assert(d[w] == v@[k as int]);
            assert(!is_digit(d[w]));
            return None;
        }
        let ghost prev = v@.subrange(start as int, k as int);
        assert(v@.subrange(start as int, k + 1).drop_last() =~= prev);
        assert(digits_value(v@.subrange(start as int, k + 1)) == digits_value(prev) * 10 + (c as nat
            - '0' as nat) as nat);
        if !over {
            let next: u16 = value * 10 + (c as u16 - 48);
            if next > 255 {
                over = true;
            } else {
                value = next;
            }
        }
        k = k + 1;
    }
    assert forall|i: int| 0 <= i < d.len() implies is_digit(#[trigger] d[i]) by {
        assert(d[i] == v@[start + i]);
    }
    if over {
        None
    } else {
        Some(value as u8)
    }
}

impl Config {
    /// A configuration that a run can follow: it asks for at least one script.
    pub open spec fn wf(&self) -> bool {
        self.script_count >= 1
    }

    /// The configuration that `args` asks for: after the invocation name, the script count,
    /// the dataset's filename and the template body's filename. Arguments past those three
    /// are not read.
    pub fn new(args: &[String]) -> (r: Result<Config, ToolError>)
        ensures
            args.len() < 4 <==> r matches Err(ToolError::MissingArguments(_)),
            r matches Err(ToolError::MissingArguments(m)) ==> m@ == usage_message(
                invocation_name(args@),
            ),
            (args.len() >= 4 && script_count_of(args@[1]@) is None) <==> r matches Err(
                ToolError::InvalidArgument(_),
            ),
            r matches Err(ToolError::InvalidArgument(a)) ==> a@ == args@[1]@,
            args.len() >= 4 && script_count_of(args@[1]@) is Some ==> (r matches Ok(c) && c.wf()
                && c.script_count == script_count_of(args@[1]@)->0 && c.dataset_file@
                == args@[2]@ && c.template_file@ == args@[3]@),
            r matches Ok(c) ==> c.wf(),
    {
        if args.len() < 4 {
            let mut m = String::from_str(
                "Not enough arguments!\nArguments must be amount of scripts to create, animation data filename and filename for python script body\nEg. ",
            );
            if args.len() > 0 {
                m.append(args[0].as_str());
            }
            m.append(".exe \"1\" \"noWeaponAnims.txt\" \"batchrender-noweapons.py\"");
            assert(m@ =~= usage_message(invocation_name(args@)));
            return Err(ToolError::MissingArguments(m));
        }
        match parse_u8(args[1].as_str()) {
            Some(n) => {
                if n == 0 {
                    return Err(ToolError::InvalidArgument(args[1].clone()));
                }
                Ok(Config {
                    script_count: n,
                    dataset_file: args[2].clone(),
                    template_file: args[3].clone(),
                })
            },
            None => Err(ToolError::InvalidArgument(args[1].clone())),
        }
    }
}

} // verus!
