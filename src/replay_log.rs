//! The plain-text log of review answers, one line per answer, kept for
//! recovery.
use vstd::prelude::*;
use std::path::PathBuf;
use crate::deck::Card;
use crate::scheduler::Rating;

verus! {

/// std's `PathBuf`, carried as an opaque value.
#[verifier::external_type_specification]
#[verifier::external_body]
pub struct ExPathBuf(PathBuf);

/// Writes review answers to the log file at `log_path`.
pub struct ReplayLogger {
    log_path: PathBuf,
}

impl ReplayLogger {
    /// A logger for the file at `log_path`.
    pub fn with_path(log_path: PathBuf) -> (r: ReplayLogger)
        ensures
            r.spec_path() == log_path,
    {
        ReplayLogger { log_path }
    }

    pub closed spec fn spec_path(&self) -> PathBuf {
        self.log_path
    }

    /// The log file.
    pub fn log_path(&self) -> (r: &PathBuf)
        ensures
            *r == self.spec_path(),
    {
        &self.log_path
    }
}

pub open spec fn digit_char(d: nat) -> char {
    if d == 0 {
        '0'
    } else if d == 1 {
        '1'
    } else if d == 2 {
        '2'
    } else if d == 3 {
        '3'
    } else if d == 4 {
        '4'
    } else if d == 5 {
        '5'
    } else if d == 6 {
        '6'
    } else if d == 7 {
        '7'
    } else if d == 8 {
        '8'
    } else {
        '9'
    }
}

/// The decimal digits of `n`, without leading zeros.
pub open spec fn decimal(n: nat) -> Seq<char>
    decreases n,
{
    if n < 10 {
        seq![digit_char(n)]
    } else {
        decimal(n / 10).push(digit_char(n % 10))
    }
}

/// `n` in decimal, with a minus sign when negative.
pub open spec fn signed_decimal(n: int) -> Seq<char> {
    if n < 0 {
        seq!['-'] + decimal((-n) as nat)
    } else {
        decimal(n as nat)
    }
}

/// The name of a rating as the log writes it.
pub open spec fn rating_name(r: Rating) -> Seq<char> {
    match r {
        Rating::Again => seq!['A', 'g', 'a', 'i', 'n'],
        Rating::Hard => seq!['H', 'a', 'r', 'd'],
        Rating::Good => seq!['G', 'o', 'o', 'd'],
        Rating::Easy => seq!['E', 'a', 's', 'y'],
    }
}

/// One log line: time stamp, card id, rating, ease factor and interval,
/// separated by commas.
pub open spec fn entry_text(timestamp: Seq<char>, card: Card, rating: Rating) -> Seq<char> {
    timestamp + seq![','] + signed_decimal(card.id as int) + seq![','] + rating_name(rating) + seq![',']
        + decimal(card.ease_factor as nat) + seq![','] + decimal(card.interval as nat) + seq!['\n']
}

fn digit_str(d: u64) -> (r: &'static str)
    requires
        d < 10,
    ensures
        r@ == seq![digit_char(d as nat)],
{
    proof {
        reveal_strlit("0");
        reveal_strlit("1");
        reveal_strlit("2");
        reveal_strlit("3");
        reveal_strlit("4");
        reveal_strlit("5");
        reveal_strlit("6");
        reveal_strlit("7");
        reveal_strlit("8");
        reveal_strlit("9");
    }
    let r = if d == 0 {
        "0"
    } else if d == 1 {
        "1"
    } else if d == 2 {
        "2"
    } else if d == 3 {
        "3"
    } else if d == 4 {
        "4"
    } else if d == 5 {
        "5"
    } else if d == 6 {
        "6"
    } else if d == 7 {
        "7"
    } else if d == 8 {
        "8"
    } else {
        "9"
    };
    assert(r@ =~= seq![digit_char(d as nat)]);
    r
}

fn push_decimal(out: &mut String, n: u64)
    ensures
        final(out)@ == old(out)@ + decimal(n as nat),
    decreases n,
{
    let ghost before = out@;
    if n >= 10 {
        push_decimal(out, n / 10);
    }
    out.append(digit_str(n % 10));
    proof {
        if n >= 10 {
            assert(before + decimal((n / 10) as nat) + seq![digit_char((n % 10) as nat)] =~= before + decimal(n as nat));
        } else {
            assert(before + seq![digit_char((n % 10) as nat)] =~= before + decimal(n as nat));
        }
    }
}

fn push_text(out: &mut String, lit: &str)
    ensures
        final(out)@ == old(out)@ + lit@,
{
    out.append(lit);
}

/// The log line for an answer with the given rating to `card` at `timestamp`.
pub fn entry_line(timestamp: &str, card: &Card, rating: Rating) -> (r: String)
    ensures
        r@ == entry_text(timestamp@, *card, rating),
{
    proof {
        reveal_strlit(",");
        reveal_strlit("-");
        reveal_strlit("\n");
        reveal_strlit("Again");
        reveal_strlit("Hard");
        reveal_strlit("Good");
        reveal_strlit("Easy");
    }
    let mut out = String::from_str(timestamp);
    push_text(&mut out, ",");
    if card.id < 0 {
        push_text(&mut out, "-");
        push_decimal(&mut out, (-(card.id as i128)) as u64);
    } else {
        push_decimal(&mut out, card.id as u64);
    }
    push_text(&mut out, ",");
    let name = match rating {
        Rating::Again => "Again",
        Rating::Hard => "Hard",
        Rating::Good => "Good",
        Rating::Easy => "Easy",
    };
    assert(name@ =~= rating_name(rating));
    push_text(&mut out, name);
    push_text(&mut out, ",");
    push_decimal(&mut out, card.ease_factor as u64);
    push_text(&mut out, ",");
    push_decimal(&mut out, card.interval as u64);
    push_text(&mut out, "\n");
    assert(out@ =~= entry_text(timestamp@, *card, rating));
    out
}

} // verus!
