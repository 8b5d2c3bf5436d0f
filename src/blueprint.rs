//! Command templates whose words may be positional placeholders such as
//! `{1}`, filled in from the slots of a record.
use vstd::prelude::*;
use vstd::string::StrSliceExecFns;
use crate::fuzip::{Fuzip, Fuzippable};
use shlex::Shlex;

verus! {

/// The words into which a POSIX shell would split `s`, up to the first
/// malformed quote.
pub uninterp spec fn shell_words_of(s: Seq<char>) -> Seq<Seq<char>>;

/// Relies on shlex::Shlex, whose iterator yields the words of a command line
/// as a POSIX shell splits them.
#[verifier::external_body]
fn shell_words(s: &str) -> (r: Vec<String>)
    ensures
        r@.map_values(|w: String| w@) == shell_words_of(s@),
{
    Shlex::new(s).collect()
}

/// Whether `c` is an ASCII decimal digit.
pub open spec fn is_digit(c: char) -> bool {
    '0' <= c <= '9'
}

/// The number that the decimal digits `d` spell.
pub open spec fn digits_value(d: Seq<char>) -> nat
    decreases d.len(),
{
    if d.len() == 0 {
        0
    } else {
        digits_value(d.drop_last()) * 10 + (d.last() as nat - '0' as nat) as nat
    }
}

/// The number of a placeholder: `part` is `{`, one or more decimal digits,
/// then `}`, and nothing else.
pub open spec fn placeholder_number(part: Seq<char>) -> Option<nat> {
    if part.len() >= 3 && part[0] == '{' && part.last() == '}' && (forall|i: int|
        1 <= i < part.len() - 1 ==> is_digit(#[trigger] part[i])) {
        Some(digits_value(part.subrange(1, part.len() - 1)))
    } else {
        None
    }
}

/// Why a word of a template cannot be filled in.
#[derive(Debug, Clone, Copy, PartialEq, Eq, Structural)]
pub enum TemplateError {
    /// The placeholder `{0}`: placeholders count from one.
    ZeroIndex,
    /// The placeholder's number does not fit in a `usize`.
    IndexTooLarge,
    /// The placeholder names slot `index` (from zero), but the record has
    /// only `width` slots.
    OutOfBounds { index: usize, width: usize },
}

/// What word `part` of a template becomes for a record with slots `slots`:
/// a word that is no placeholder stays as it is; a placeholder becomes the
/// shown form of the value in its slot, or nothing where the slot is empty.
pub open spec fn substitution<T: Fuzippable>(part: Seq<char>, slots: Seq<Option<&T>>) -> Result<Seq<char>, TemplateError> {
    match placeholder_number(part) {
        None => Ok(part),
        Some(n) => if n == 0 {
            Err(TemplateError::ZeroIndex)
        } else if n > usize::MAX {
            Err(TemplateError::IndexTooLarge)
        } else if n - 1 >= slots.len() {
            Err(TemplateError::OutOfBounds { index: (n - 1) as usize, width: slots.len() as usize })
        } else {
            match slots[n - 1] {
                Some(t) => Ok(t.display_view()),
                None => Ok(Seq::empty()),
            }
        },
    }
}

proof fn lemma_digits_value_push(d: Seq<char>, c: char)
    ensures
        digits_value(d.push(c)) == digits_value(d) * 10 + (c as nat - '0' as nat) as nat,
{
    assert(d.push(c).drop_last() =~= d);
}

proof fn lemma_digits_value_grows(d: Seq<char>, c: char)
    requires
        is_digit(c),
    ensures
        digits_value(d.push(c)) >= digits_value(d),
{
    lemma_digits_value_push(d, c);
    assert(digits_value(d) * 10 >= digits_value(d)) by (nonlinear_arith);
}

/// The placeholder number of `part`: `None` when `part` is no placeholder,
/// `Some(None)` when its number exceeds `usize::MAX`.
fn parse_placeholder(part: &str) -> (r: Option<Option<usize>>)
    ensures
        match placeholder_number(part@) {
            None => r is None,
            Some(n) => if n <= usize::MAX { r == Some(Some(n as usize)) } else { r == Some(None::<usize>) },
        },
{
    let len = part.unicode_len();
    if len < 3 || part.get_char(0) != '{' || part.get_char(len - 1) != '}' {
        return None;
    }
    let ghost digits = part@.subrange(1, len - 1);
    let mut value: usize = 0;
    let mut overflow = false;
    let mut i: usize = 1;
    while i < len - 1
        invariant
            3 <= len == part@.len(),
            digits == part@.subrange(1, len - 1),
            1 <= i <= len - 1,
            forall|k: int| 1 <= k < i ==> is_digit(#[trigger] part@[k]),
            overflow ==> digits_value(part@.subrange(1, i as int)) > usize::MAX,
            !overflow ==> digits_value(part@.subrange(1, i as int)) == value,
        decreases len - 1 - i,
    {
        let c = part.get_char(i);
        if !('0' <= c && c <= '9') {
            return None;
        }
        let d = (c as u32 - '0' as u32) as usize;
        proof {
            assert(part@.subrange(1, i + 1) =~= part@.subrange(1, i as int).push(c));
            lemma_digits_value_push(part@.subrange(1, i as int), c);
            lemma_digits_value_grows(part@.subrange(1, i as int), c);
        }
        if !overflow {
            if value > (usize::MAX - d) / 10 {
                overflow = true;
                assert(value * 10 + d > usize::MAX) by (nonlinear_arith)
                    requires
                        value > (usize::MAX - d) / 10,
                        d <= 9;
            } else {
                assert(value * 10 + d <= usize::MAX) by (nonlinear_arith)
                    requires
                        value <= (usize::MAX - d) / 10,
                        d <= 9;
                value = value * 10 + d;
            }
        }
        i = i + 1;
    }
    assert(part@.subrange(1, i as int) =~= digits);
    if overflow {
        Some(None)
    } else {
        Some(Some(value))
    }
}

/// Word `part` of a template, filled in from the record `replacements`.
pub fn swap_placeholder<T: Fuzippable>(part: &str, replacements: &Fuzip<&T>) -> (r: Result<String, TemplateError>)
    ensures
        match r {
            Ok(s) => substitution(part@, replacements@) == Ok::<Seq<char>, TemplateError>(s@),
            Err(e) => substitution(part@, replacements@) == Err::<Seq<char>, TemplateError>(e),
        },
{
    match parse_placeholder(part) {
        None => Ok(part.to_owned()),
        Some(None) => Err(TemplateError::IndexTooLarge),
        Some(Some(n)) => {
            if n == 0 {
                return Err(TemplateError::ZeroIndex);
            }
            let index = n - 1;
            let width = replacements.width();
            if index >= width {
                return Err(TemplateError::OutOfBounds { index, width });
            }
            match replacements.get(index) {
                Ok(t) => Ok(t.display()),
                Err(_) => Ok(String::new()),
            }
        },
    }
}

/// A command to run for each record: a program and its arguments, any of
/// which may be a placeholder.
#[derive(Debug)]
pub struct ExecBlueprint {
    program: String,
    args: Vec<String>,
}

impl ExecBlueprint {
    /// The words of the template: the program first, then its arguments.
    pub closed spec fn words(&self) -> Seq<Seq<char>> {
        seq![self.program@] + self.args@.map_values(|a: String| a@)
    }

    /// The template that runs `program` with `args`.
    pub fn new(program: String, args: Vec<String>) -> (r: ExecBlueprint)
        ensures
            r.words() == seq![program@] + args@.map_values(|a: String| a@),
    {
        ExecBlueprint { program, args }
    }

    /// The template written as the shell command line `invocation`; `None`
    /// when the line holds no word.
    pub fn from_invocation(invocation: &str) -> (r: Option<ExecBlueprint>)
        ensures
            shell_words_of(invocation@).len() == 0 <==> r is None,
            r matches Some(b) ==> b.words() == shell_words_of(invocation@),
    {
        let mut words = shell_words(invocation);
        if words.len() == 0 {
            return None;
        }
        let ghost all = words@;
        let program = words.remove(0);
        let b = ExecBlueprint { program, args: words };
        assert(b.words() =~= all.map_values(|w: String| w@));
        Some(b)
    }

    /// The program and its arguments with every placeholder filled in from
    /// `replacements`, or the error of the first word that cannot be.
    pub fn command_line<T: Fuzippable>(&self, replacements: &Fuzip<&T>) -> (r: Result<Vec<String>, TemplateError>)
        ensures
            match r {
                Ok(v) => v@.len() == self.words().len() && forall|i: int| 0 <= i < v@.len() ==>
                    substitution(self.words()[i], replacements@) == Ok::<Seq<char>, TemplateError>(#[trigger] v@[i]@),
                Err(e) => exists|i: int| 0 <= i < self.words().len()
                    && substitution(self.words()[i], replacements@) == Err::<Seq<char>, TemplateError>(e)
                    && forall|k: int| 0 <= k < i ==> (#[trigger] substitution(self.words()[k], replacements@)) is Ok,
            },
    {
        let ghost words = self.words();
        let mut out: Vec<String> = Vec::new();
        let first = swap_placeholder(self.program.as_str(), replacements);
        match first {
            Ok(s) => out.push(s),
            Err(e) => {
                assert(words[0] == self.program@);
                return Err(e);
            },
        }
        let mut i: usize = 0;
        while i < self.args.len()
            invariant
                words == self.words(),
                words.len() == self.args@.len() + 1,
                i <= self.args@.len(),
                out@.len() == i + 1,
                forall|k: int| 0 <= k < out@.len() ==>
                    substitution(words[k], replacements@) == Ok::<Seq<char>, TemplateError>(#[trigger] out@[k]@),
            decreases self.args@.len() - i,
        {
            assert(words[i + 1] == self.args@[i as int]@);
            match swap_placeholder(self.args[i].as_str(), replacements) {
                Ok(s) => out.push(s),
                Err(e) => {
                    assert forall|k: int| 0 <= k < i + 1 implies (#[trigger] substitution(words[k], replacements@)) is Ok by {
                        assert(substitution(words[k], replacements@) == Ok::<Seq<char>, TemplateError>(out@[k]@));
                    }
                    return Err(e);
                },
            }
            i = i + 1;
        }
        Ok(out)
    }
}

} // verus!
