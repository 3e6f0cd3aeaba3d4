//! The password: given outright, found in the environment, or typed in.
//!
//! This library asks nobody for anything. Its caller hands over what it
//! has, and is told either the password or what to ask the user for next.

use vstd::prelude::*;

verus! {

/// What is to happen next on the way to a password.
#[derive(Debug, PartialEq, Eq)]
pub enum PasswordStep {
    /// The password is known.
    Ready(String),
    /// The user is to be asked for the password.
    Prompt,
    /// The user typed two passwords that differ, and is to be asked again.
    PromptAgain,
}

/// The step as a mathematical value.
pub enum PasswordStepView {
    Ready(Seq<char>),
    Prompt,
    PromptAgain,
}

impl View for PasswordStep {
    type V = PasswordStepView;

    open spec fn view(&self) -> PasswordStepView {
        match *self {
            PasswordStep::Ready(password) => PasswordStepView::Ready(password@),
            PasswordStep::Prompt => PasswordStepView::Prompt,
            PasswordStep::PromptAgain => PasswordStepView::PromptAgain,
        }
    }
}

/// The password that is known without asking: the one given outright, or
/// else the one from the environment.
pub open spec fn known_password(
    password: Option<Seq<char>>,
    environment: Option<Seq<char>>,
) -> Option<Seq<char>> {
    match password {
        Some(given) => Some(given),
        None => environment,
    }
}

/// The next step towards the password of an existing registry: what is
/// known without asking comes first, then what was typed.
pub open spec fn password_step(
    password: Option<Seq<char>>,
    environment: Option<Seq<char>>,
    typed: Option<Seq<char>>,
) -> PasswordStepView {
    match known_password(password, environment) {
        Some(known) => PasswordStepView::Ready(known),
        None => match typed {
            Some(text) => PasswordStepView::Ready(text),
            None => PasswordStepView::Prompt,
        },
    }
}

/// The next step towards the password of a new registry: what is known
/// without asking comes first; what was typed counts once it was typed
/// the same way twice.
pub open spec fn new_password_step(
    password: Option<Seq<char>>,
    environment: Option<Seq<char>>,
    typed: Option<(Seq<char>, Seq<char>)>,
) -> PasswordStepView {
    match known_password(password, environment) {
        Some(known) => PasswordStepView::Ready(known),
        None => match typed {
            Some((first, second)) => if first == second {
                PasswordStepView::Ready(first)
            } else {
                PasswordStepView::PromptAgain
            },
            None => PasswordStepView::Prompt,
        },
    }
}

/// What an optional string holds.
pub open spec fn text_of(text: Option<String>) -> Option<Seq<char>> {
    match text {
        Some(t) => Some(t@),
        None => None,
    }
}

/// What an optional pair of strings holds.
pub open spec fn pair_of(pair: Option<(String, String)>) -> Option<(Seq<char>, Seq<char>)> {
    match pair {
        Some((first, second)) => Some((first@, second@)),
        None => None,
    }
}

/// Decides on the password of an existing registry.
pub fn ensure_password(
    password: Option<String>,
    environment: Option<String>,
    typed: Option<String>,
) -> (step: PasswordStep)
    ensures
        step@ == password_step(text_of(password), text_of(environment), text_of(typed)),
{
    match password {
        Some(given) => PasswordStep::Ready(given),
        None => match environment {
            Some(found) => PasswordStep::Ready(found),
            None => match typed {
                Some(text) => PasswordStep::Ready(text),
                None => PasswordStep::Prompt,
            },
        },
    }
}

/// Decides on the password of a new registry.
pub fn ensure_new_password(
    password: Option<String>,
    environment: Option<String>,
    typed: Option<(String, String)>,
) -> (step: PasswordStep)
    ensures
        step@ == new_password_step(text_of(password), text_of(environment), pair_of(typed)),
{
    match password {
        Some(given) => PasswordStep::Ready(given),
        None => match environment {
            Some(found) => PasswordStep::Ready(found),
            None => match typed {
                Some((first, second)) => {
                    if first == second {
                        PasswordStep::Ready(first)
                    } else {
                        PasswordStep::PromptAgain
                    }
                },
                None => PasswordStep::Prompt,
            },
        },
    }
}

} // verus!
