//! Notifications: how an event is put before the user.

use crate::alert::{severity_text, Event, EventView, Severity};
use crate::text::{markup_escaped, markup_text};
use vstd::prelude::*;

verus! {

/// Someone who is told of events through a command.
pub trait Notifier {
    /// The arguments of the command that tells of an event; `None` where nothing
    /// is to be told.
    spec fn call(&self, event: EventView) -> Option<Seq<Seq<char>>>;

    /// The arguments of the command that tells of an event.
    fn notify(&self, event: &Event) -> (r: Option<Vec<String>>)
        ensures
            match r {
                Some(args) => self.call(event@) == Some(args.deep_view()),
                None => self.call(event@) is None,
            },
    ;
}

/// The user's desktop, reached through `notify-send`.
pub struct Desktop;

pub open spec fn notice_title(e: EventView) -> Seq<char> {
    "disk-watch: "@ + severity_text(e.severity)
}

/// The disk and the message, as plain text.
pub open spec fn notice_text(e: EventView) -> Seq<char> {
    (match e.disk {
        Some(d) => d.model + " serial="@ + d.serial + " "@ + d.path,
        None => "Unknown disk"@,
    }) + seq!['\n'] + e.message
}

/// The arguments for `notify-send`. An event of no weight is not told. What devices
/// and the kernel say is shown as plain text, never as markup.
pub open spec fn desktop_call(e: EventView) -> Option<Seq<Seq<char>>> {
    if e.severity == Severity::Info {
        None
    } else {
        Some(
            seq![
                "--app-name=disk-watch"@,
                "--urgency"@,
                (if e.severity == Severity::Critical {
                    "critical"@
                } else {
                    "normal"@
                }),
                "--"@,
                notice_title(e),
                markup_text(notice_text(e)),
            ],
        )
    }
}

impl Notifier for Desktop {
    open spec fn call(&self, event: EventView) -> Option<Seq<Seq<char>>> {
        desktop_call(event)
    }

    fn notify(&self, event: &Event) -> (r: Option<Vec<String>>) {
        if event.severity == Severity::Info {
            return None;
        }
        let mut title: String = "disk-watch: ".to_owned();
        title.append(event.severity.name());
        let mut text: String = match &event.disk {
            Some(d) => {
                let mut t: String = d.model.clone();
                t.append(" serial=");
                t.append(d.serial.as_str());
                t.append(" ");
                t.append(d.path.as_str());
                t
            },
            None => "Unknown disk".to_owned(),
        };
        text.push('\n');
        text.append(event.message.as_str());
        assert(text@ =~= notice_text(event@));
        let mut args: Vec<String> = Vec::new();
        args.push("--app-name=disk-watch".to_owned());
        args.push("--urgency".to_owned());
        args.push(
            if event.severity == Severity::Critical {
                "critical".to_owned()
            } else {
                "normal".to_owned()
            },
        );
        args.push("--".to_owned());
        args.push(title);
        args.push(markup_escaped(text.as_str()));
        assert(args.deep_view() =~= desktop_call(event@)->0);
        Some(args)
    }
}

} // verus!
