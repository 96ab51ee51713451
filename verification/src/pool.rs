//! The bounded pool that runs each fiber up to its first suspension.
use std::collections::VecDeque;
use vstd::prelude::*;
use vstd::string::*;

verus! {

/// The jobs that wait for a worker, the oldest one first.
pub struct AffPoolQueue<J> {
    pub jobs: VecDeque<J>,
    pub stop: bool,
}

#[verifier::ext_equal]
pub struct PoolView<J> {
    pub jobs: Seq<J>,
    pub stop: bool,
}

impl<J> View for AffPoolQueue<J> {
    type V = PoolView<J>;

    open spec fn view(&self) -> PoolView<J> {
        PoolView { jobs: self.jobs@, stop: self.stop }
    }
}

/// What a worker has to do.
pub enum AffWork<J> {
    Run(J),
    /// Wait until the queue changes.
    Wait,
    Stop,
}

impl<J> PoolView<J> {
    /// The queue after a worker has looked for work, and what it has to do.
    pub open spec fn working(self) -> (PoolView<J>, AffWork<J>) {
        if self.stop {
            (self, AffWork::Stop)
        } else if self.jobs.len() == 0 {
            (self, AffWork::Wait)
        } else {
            (PoolView { jobs: self.jobs.skip(1), ..self }, AffWork::Run(self.jobs[0]))
        }
    }
}

impl<J> AffPoolQueue<J> {
    pub fn new() -> (queue: AffPoolQueue<J>)
        ensures
            queue@ == (PoolView::<J> { jobs: Seq::empty(), stop: false }),
    {
        AffPoolQueue { jobs: VecDeque::new(), stop: false }
    }

    pub fn submit(&mut self, job: J)
        ensures
            final(self)@ == (PoolView { jobs: old(self)@.jobs.push(job), ..old(self)@ }),
    {
        self.jobs.push_back(job);
    }

    /// What a worker that looks for work has to do. Once the pool is told to
    /// stop, no job starts any more.
    pub fn work(&mut self) -> (work: AffWork<J>)
        ensures
            (final(self)@, work) == old(self)@.working(),
    {
        if self.stop {
            return AffWork::Stop;
        }
        match self.jobs.pop_front() {
            Some(job) => {
                assert(self@.jobs =~= old(self)@.jobs.skip(1));
                AffWork::Run(job)
            },
            None => AffWork::Wait,
        }
    }

    /// Tells the pool to stop. Jobs that have not started are dropped.
    pub fn shut_down(&mut self)
        ensures
            final(self)@ == (PoolView::<J> { jobs: Seq::empty(), stop: true }),
    {
        self.stop = true;
        self.jobs.clear();
    }
}

pub open spec fn is_digit(c: char) -> bool {
    '0' <= c <= '9'
}

/// The number that a run of decimal digits stands for.
pub open spec fn decimal(digits: Seq<char>) -> nat
    decreases digits.len(),
{
    if digits.len() == 0 {
        0
    } else {
        decimal(digits.drop_last()) * 10 + (digits.last() as nat - '0' as nat) as nat
    }
}

/// The digits of a number that may be written with a leading plus sign.
pub open spec fn unsigned_digits(text: Seq<char>) -> Seq<char> {
    if text.len() > 0 && text[0] == '+' {
        text.skip(1)
    } else {
        text
    }
}

/// The number that `text` stands for, if it is one that fits.
pub open spec fn parsed_size(text: Seq<char>) -> Option<usize> {
    let digits = unsigned_digits(text);
    if digits.len() > 0 && (forall|i: int| 0 <= i < digits.len() ==> is_digit(#[trigger] digits[i]))
        && decimal(digits) <= usize::MAX {
        Some(decimal(digits) as usize)
    } else {
        None
    }
}

proof fn lemma_decimal_prefix(digits: Seq<char>, n: int)
    requires
        0 <= n <= digits.len(),
        forall|i: int| 0 <= i < digits.len() ==> is_digit(#[trigger] digits[i]),
    ensures
        decimal(digits.take(n)) <= decimal(digits),
    decreases digits.len() - n,
{
    if n < digits.len() {
        lemma_decimal_prefix(digits, n + 1);
        assert(digits.take(n + 1).drop_last() =~= digits.take(n));
        assert(digits.take(n + 1).last() == digits[n]);
    } else {
        assert(digits.take(n) =~= digits);
    }
}

/// Reads a number.
pub fn parse_size(text: &str) -> (size: Option<usize>)
    ensures
        size == parsed_size(text@),
{
    let length: usize = text.unicode_len();
    let ghost digits = unsigned_digits(text@);
    let start: usize = if length > 0 && text.get_char(0) == '+' {
        1
    } else {
        0
    };
    if length == start {
        return None;
    }
    let mut value: usize = 0;
    let mut i: usize = start;
    assert(digits.take(0) =~= seq![]);
    while i < length
        invariant
            start <= i <= length,
            length == text@.len(),
            digits == unsigned_digits(text@),
            digits == text@.skip(start as int),
            forall|k: int| 0 <= k < i - start ==> is_digit(#[trigger] digits[k]),
            value == decimal(digits.take(i - start)),
        decreases length - i,
    {
        let c: char = text.get_char(i);
        assert(c == digits[i - start]);
        if c < '0' || c > '9' {
            assert(!is_digit(digits[i - start]));
            return None;
        }
        let digit: usize = (c as u32 - '0' as u32) as usize;
        let ghost here = i - start;
        proof {
            assert(digits.take(here + 1).drop_last() =~= digits.take(here));
            assert(digits.take(here + 1).last() == digits[here]);
            if forall|k: int| 0 <= k < digits.len() ==> is_digit(#[trigger] digits[k]) {
                lemma_decimal_prefix(digits, here + 1);
            }
        }
        match value.checked_mul(10) {
            Some(shifted) => match shifted.checked_add(digit) {
                Some(next) => {
                    value = next;
                },
                None => {
                    return None;
                },
            },
            None => {
                return None;
            },
        }
        i = i + 1;
    }
    assert(digits.take(digits.len() as int) =~= digits);
    Some(value)
}

/// How many workers the pool gets: what the setting asks for, unless it is
/// absent, malformed or zero; otherwise as many as the machine can run at once,
/// but two at least; and four if that is unknown.
pub open spec fn default_workers(setting: Option<Seq<char>>, parallelism: Option<usize>) -> usize {
    let asked = match setting {
        Some(text) => parsed_size(text),
        None => None,
    };
    match asked {
        Some(workers) if workers > 0 => workers,
        _ => match parallelism {
            Some(workers) => if workers >= 2 {
                workers
            } else {
                2
            },
            None => 4,
        },
    }
}

pub open spec fn setting_text(setting: Option<String>) -> Option<Seq<char>> {
    match setting {
        Some(text) => Some(text@),
        None => None,
    }
}

/// Chooses the size of the pool from the value of `PURUST_AFF_WORKERS` and the
/// parallelism that is available.
pub fn aff_default_workers(setting: Option<String>, parallelism: Option<usize>) -> (workers: usize)
    ensures
        workers == default_workers(setting_text(setting), parallelism),
{
    if let Some(text) = &setting {
        if let Some(workers) = parse_size(text.as_str()) {
            if workers > 0 {
                return workers;
            }
        }
    }
    match parallelism {
        Some(workers) => if workers >= 2 {
            workers
        } else {
            2
        },
        None => 4,
    }
}

} // verus!
