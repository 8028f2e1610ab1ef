//! The lines that a run tells the user as it goes on.

use vstd::prelude::*;

verus! {

/// Something to tell the user.
#[derive(Clone, Copy, Debug, PartialEq, Eq, Structural)]
pub enum Notice {
    /// The run starts.
    Workers {
        /// The number of workers.
        count: usize,
    },
    /// A file is taken up.
    File {
        /// Which of the files.
        file: usize,
    },
    /// The file has been tested before.
    CachedResults {
        /// The number of outcomes that are taken over.
        count: usize,
    },
    /// There is nothing to test in the file.
    NoMutants {
        /// Which of the files.
        file: usize,
    },
    /// The mutants of the file are about to be tested.
    Generated {
        /// The number of mutants.
        count: usize,
    },
}

/// The character of a decimal digit.
pub open spec fn digit(value: nat) -> char {
    if value == 0 {
        '0'
    } else if value == 1 {
        '1'
    } else if value == 2 {
        '2'
    } else if value == 3 {
        '3'
    } else if value == 4 {
        '4'
    } else if value == 5 {
        '5'
    } else if value == 6 {
        '6'
    } else if value == 7 {
        '7'
    } else if value == 8 {
        '8'
    } else {
        '9'
    }
}

/// A number in decimal notation.
pub open spec fn decimal(value: nat) -> Seq<char>
    decreases value,
{
    if value < 10 {
        seq![digit(value)]
    } else {
        decimal(value / 10).push(digit(value % 10))
    }
}

/// The line for a notice, where `displays` are the paths of the files as shown to the user.
pub open spec fn notice_text(notice: Notice, displays: Seq<Seq<char>>) -> Seq<char> {
    match notice {
        Notice::Workers { count } => "Running mutation tests with "@ + decimal(count as nat)
            + " parallel workers..."@,
        Notice::File { file } => "Running mutation tests for "@ + displays[file as int],
        Notice::CachedResults { count } => "  Using cached results for "@ + decimal(count as nat)
            + " mutants"@,
        Notice::NoMutants { file } => "  No mutants generated for "@ + displays[file as int],
        Notice::Generated { count } => "  Generated "@ + decimal(count as nat)
            + " mutants, testing in parallel..."@,
    }
}

/// The text of a decimal digit.
fn digit_text(value: usize) -> (text: &'static str)
    requires
        value < 10,
    ensures
        text@ == seq![digit(value as nat)],
{
    proof {
        reveal_strlit("0");
        reveal_strlit("1");
        reveal_strlit("2");
        reveal_strlit("3");
        reveal_strlit("4");
        reveal_strlit("5");
        reveal_strlit("6");
        reveal_strlit("7");
        reveal_strlit("8");
        reveal_strlit("9");
    }
    let text: &'static str = if value == 0 {
        "0"
    } else if value == 1 {
        "1"
    } else if value == 2 {
        "2"
    } else if value == 3 {
        "3"
    } else if value == 4 {
        "4"
    } else if value == 5 {
        "5"
    } else if value == 6 {
        "6"
    } else if value == 7 {
        "7"
    } else if value == 8 {
        "8"
    } else {
        "9"
    };
    assert(text@ =~= seq![digit(value as nat)]);
    text
}

/// A number in decimal notation.
pub fn decimal_text(value: usize) -> (text: String)
    ensures
        text@ == decimal(value as nat),
    decreases value,
{
    if value < 10 {
        digit_text(value).to_owned()
    } else {
        let text: String = decimal_text(value / 10).concat(digit_text(value % 10));
        assert(text@ =~= decimal(value as nat));
        text
    }
}

/// The digits of a number: the last one is what is left of it by ten, the others are those of a
/// tenth of it, and a number below ten has one digit.
pub proof fn law_decimals_have_their_digits(value: nat)
    ensures
        decimal(value).len() > 0,
        decimal(value).last() as int == 48 + value % 10,
        value < 10 ==> decimal(value).len() == 1,
        value >= 10 ==> decimal(value).drop_last() == decimal(value / 10),
{
    if value >= 10 {
        assert(decimal(value).drop_last() =~= decimal(value / 10));
    }
}

/// What the user reads of each notice.
pub proof fn law_notices_read(count: usize, file: usize, displays: Seq<Seq<char>>)
    ensures
        notice_text(Notice::Workers { count }, displays) == "Running mutation tests with "@
            + decimal(count as nat) + " parallel workers..."@,
        notice_text(Notice::File { file }, displays) == "Running mutation tests for "@
            + displays[file as int],
        notice_text(Notice::CachedResults { count }, displays) == "  Using cached results for "@
            + decimal(count as nat) + " mutants"@,
        notice_text(Notice::NoMutants { file }, displays) == "  No mutants generated for "@
            + displays[file as int],
        notice_text(Notice::Generated { count }, displays) == "  Generated "@ + decimal(
            count as nat,
        ) + " mutants, testing in parallel..."@,
{
}

} // verus!
