//! The lessons, and the choice of one by its name.

pub mod downside_tail_risk;
pub mod fat_tails;
pub mod leverage;
pub mod mean_reversion;
pub mod order_flow_conditional_momentum;
pub mod robust_averages;
pub mod volatility;

use vstd::prelude::*;

verus! {

/// The lessons that can be chosen by name.
#[derive(Clone, Copy, Debug, PartialEq, Eq, Structural)]
pub enum Lesson {
    DownsideTailRisk,
    Volatility,
    RobustAverages,
    FatTails,
    Leverage,
    MeanReversion,
}

/// The lesson a name stands for.
pub open spec fn lesson_named(name: Seq<char>) -> Option<Lesson> {
    if name == "downside-tail-risk"@ {
        Some(Lesson::DownsideTailRisk)
    } else if name == "volatility"@ {
        Some(Lesson::Volatility)
    } else if name == "robust-averages"@ {
        Some(Lesson::RobustAverages)
    } else if name == "fat-tails"@ {
        Some(Lesson::FatTails)
    } else if name == "leverage"@ {
        Some(Lesson::Leverage)
    } else if name == "mean-reversion"@ {
        Some(Lesson::MeanReversion)
    } else {
        None
    }
}

/// The message for a name that stands for no lesson.
pub open spec fn unknown_lesson_message(name: Seq<char>) -> Seq<char> {
    "unknown lesson '"@ + name
        + "'. Choose: volatility, robust-averages, fat-tails, leverage, mean-reversion, or downside-tail-risk"@
}

/// Whether two texts are the same, character by character.
fn same_text(a: &str, b: &str) -> (r: bool)
    ensures
        r == (a@ == b@),
{
    let n = a.unicode_len();
    if n != b.unicode_len() {
        return false;
    }
    let mut i: usize = 0;
    while i < n
        invariant
            n == a@.len(),
            n == b@.len(),
            i <= n,
            forall|k: int| 0 <= k < i ==> a@[k] == b@[k],
        decreases n - i,
    {
        if a.get_char(i) != b.get_char(i) {
            return false;
        }
        i = i + 1;
    }
    proof {
        assert(a@ =~= b@);
    }
    true
}

/// Chooses the lesson to run by its name; an unknown name gives the message
/// that lists the names.
pub fn run(lesson_name: &str) -> (r: Result<Lesson, String>)
    ensures
        lesson_named(lesson_name@) matches Some(lesson) ==> r == Ok::<Lesson, String>(lesson),
        lesson_named(lesson_name@) is None ==> (r matches Err(message) && message@
            == unknown_lesson_message(lesson_name@)),
{
    if same_text(lesson_name, "downside-tail-risk") {
        Ok(Lesson::DownsideTailRisk)
    } else if same_text(lesson_name, "volatility") {
        Ok(Lesson::Volatility)
    } else if same_text(lesson_name, "robust-averages") {
        Ok(Lesson::RobustAverages)
    } else if same_text(lesson_name, "fat-tails") {
        Ok(Lesson::FatTails)
    } else if same_text(lesson_name, "leverage") {
        Ok(Lesson::Leverage)
    } else if same_text(lesson_name, "mean-reversion") {
        Ok(Lesson::MeanReversion)
    } else {
        let mut message = String::from_str("unknown lesson '");
        message.append(lesson_name);
        message.append(
            "'. Choose: volatility, robust-averages, fat-tails, leverage, mean-reversion, or downside-tail-risk",
        );
        Err(message)
    }
}

} // verus!
