//! What clicking a piece of text does.
use std::borrow::Cow;

use vstd::prelude::*;

use crate::parser::descriptors_view;
use crate::style::TryFromDescriptors;
use crate::style::cow_to_string;
use crate::style::special::{SpecialError, SpecialErrorView};
use crate::text::str_eq;

verus! {

/// A click action and its argument.
#[derive(Debug, Clone, PartialEq)]
#[allow(non_camel_case_types)]
pub enum ClickEvent {
    OpenUrl(String),
    RunCommand(String),
    SuggestCommand(String),
    CopyToClipboard(String),
    __Empty,
}

/// The mathematical value of a click action.
pub enum ClickEventView {
    OpenUrl(Seq<char>),
    RunCommand(Seq<char>),
    SuggestCommand(Seq<char>),
    CopyToClipboard(Seq<char>),
    Empty,
}

impl View for ClickEvent {
    type V = ClickEventView;

    open spec fn view(&self) -> ClickEventView {
        match self {
            ClickEvent::OpenUrl(s) => ClickEventView::OpenUrl(s@),
            ClickEvent::RunCommand(s) => ClickEventView::RunCommand(s@),
            ClickEvent::SuggestCommand(s) => ClickEventView::SuggestCommand(s@),
            ClickEvent::CopyToClipboard(s) => ClickEventView::CopyToClipboard(s@),
            ClickEvent::__Empty => ClickEventView::Empty,
        }
    }
}

impl Default for ClickEvent {
    fn default() -> (r: Self)
        ensures
            r == ClickEvent::__Empty,
    {
        ClickEvent::__Empty
    }
}

/// The last of the arguments after the action, or the named argument is missing.
pub open spec fn last_argument(args: Seq<Seq<char>>, name: Seq<char>) -> Result<Seq<char>, SpecialErrorView> {
    if args.len() == 0 {
        Err(SpecialErrorView::MissingArgument(name))
    } else {
        Ok(args.last())
    }
}

/// The click action the descriptors describe: the action's snake-case name, then its
/// argument, of which the last one counts.
pub open spec fn spec_click_from_descriptors(ds: Seq<Seq<char>>) -> Result<ClickEventView, SpecialErrorView> {
    if ds.len() == 0 {
        Err(SpecialErrorView::MissingSpecialType)
    } else {
        let event = ds[0];
        let args = ds.drop_first();
        if event == "open_url"@ {
            match last_argument(args, "url"@) {
                Ok(a) => Ok(ClickEventView::OpenUrl(a)),
                Err(e) => Err(e),
            }
        } else if event == "run_command"@ {
            match last_argument(args, "command"@) {
                Ok(a) => Ok(ClickEventView::RunCommand(a)),
                Err(e) => Err(e),
            }
        } else if event == "suggest_command"@ {
            match last_argument(args, "command"@) {
                Ok(a) => Ok(ClickEventView::SuggestCommand(a)),
                Err(e) => Err(e),
            }
        } else if event == "copy_to_clipboard"@ {
            match last_argument(args, "contents"@) {
                Ok(a) => Ok(ClickEventView::CopyToClipboard(a)),
                Err(e) => Err(e),
            }
        } else if event == "empty"@ {
            Err(SpecialErrorView::EmptyEventReached)
        } else {
            Err(SpecialErrorView::NotFound)
        }
    }
}

impl TryFromDescriptors for ClickEvent {
    open spec fn accepts_descriptors(ds: Seq<Seq<char>>) -> bool {
        true
    }

    /// The click action the descriptors of a `click` element describe.
    fn try_from_descriptors(args: Vec<Cow<'_, str>>) -> (r: Result<Self, SpecialError>)
        ensures
            match (r, spec_click_from_descriptors(descriptors_view(args@))) {
                (Ok(a), Ok(b)) => a@ == b,
                (Err(e), Err(f)) => e@ == f,
                _ => false,
            },
    {
        let ghost ds = descriptors_view(args@);
        let n = args.len();
        if n == 0 {
            return Err(SpecialError::MissingSpecialType);
        }
        let event = cow_to_string(&args[0]);
        let event = event.as_str();
        assert(ds.drop_first().len() == n - 1);
        let last = if n >= 2 {
            assert(ds.drop_first().last() == args@[n - 1]@);
            Some(cow_to_string(&args[n - 1]))
        } else {
            None
        };
        if str_eq(event, "open_url") {
            match last {
                Some(a) => Ok(ClickEvent::OpenUrl(a)),
                None => {
                    proof {
                        reveal_strlit("url");
                    }
                    Err(SpecialError::MissingArgument("url"))
                },
            }
        } else if str_eq(event, "run_command") {
            match last {
                Some(a) => Ok(ClickEvent::RunCommand(a)),
                None => Err(SpecialError::MissingArgument("command")),
            }
        } else if str_eq(event, "suggest_command") {
            match last {
                Some(a) => Ok(ClickEvent::SuggestCommand(a)),
                None => Err(SpecialError::MissingArgument("command")),
            }
        } else if str_eq(event, "copy_to_clipboard") {
            match last {
                Some(a) => Ok(ClickEvent::CopyToClipboard(a)),
                None => Err(SpecialError::MissingArgument("contents")),
            }
        } else if str_eq(event, "empty") {
            Err(SpecialError::EmptyEventReached)
        } else {
            Err(SpecialError::NotFound)
        }
    }
}

} // verus!
