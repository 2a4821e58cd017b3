//! The canonical outbound notification and its textual wire form.

use vstd::prelude::*;
use vstd::string::*;

use crate::text::{dec_seq, usize_to_string};

verus! {

/// Abstract content of a notification.
#[verifier::ext_equal]
pub ghost enum NoteView {
    /// A monitored key changed state.
    KeyChanged { label: Seq<char>, is_down: bool, ordinal: int },
    /// The reset action fired.
    Reset,
}

/// The canonical outbound message, constructed by the reducer and
/// immediately consumed by the broadcast path.
pub enum Notification {
    /// A monitored key went down or up.
    KeyChanged {
        /// Display label of the binding.
        label: String,
        /// `true` for a press, `false` for a release.
        is_down: bool,
        /// Stable slot index of the binding.
        ordinal: usize,
    },
    /// The reset action fired (on release of the reset key).
    Reset,
}

impl View for Notification {
    type V = NoteView;

    open spec fn view(&self) -> NoteView {
        match self {
            Notification::KeyChanged { label, is_down, ordinal } => NoteView::KeyChanged {
                label: label@,
                is_down: *is_down,
                ordinal: *ordinal as int,
            },
            Notification::Reset => NoteView::Reset,
        }
    }
}

/// View of an optional notification.
pub open spec fn note_view(r: Option<Notification>) -> Option<NoteView> {
    match r {
        None => None,
        Some(n) => Some(n@),
    }
}

/// The wire form of a notification: the literal `reset`, or a
/// three-element array-like payload `["label", is_down, ordinal]`.
pub open spec fn spec_wire(n: NoteView) -> Seq<char> {
    match n {
        NoteView::Reset => "reset"@,
        NoteView::KeyChanged { label, is_down, ordinal } => "[\""@ + label + "\", "@ + (if is_down {
            "true"@
        } else {
            "false"@
        }) + ", "@ + dec_seq(ordinal) + "]"@,
    }
}

impl Notification {
    /// Renders the notification in its wire form.
    pub fn to_wire(&self) -> (r: String)
        ensures
            r@ == spec_wire(self@),
    {
        match self {
            Notification::Reset => "reset".to_owned(),
            Notification::KeyChanged { label, is_down, ordinal } => {
                let mut s = "[\"".to_owned();
                s.append(label.as_str());
                s.append("\", ");
                if *is_down {
                    s.append("true");
                } else {
                    s.append("false");
                }
                s.append(", ");
                let o = usize_to_string(*ordinal);
                s.append(o.as_str());
                s.append("]");
                proof {
                    assert(s@ =~= spec_wire(self@));
                }
                s
            },
        }
    }
}

} // verus!
