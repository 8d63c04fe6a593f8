//! The flag record extracted from one command reference page.
use vstd::prelude::*;
use crate::extract::spec_command_id;
use crate::extract::extract_command_id;
use crate::text::contains_pat;
use crate::text::chars_of;
use crate::text::contains_chars;

verus! {

/// Properties of one documented command: its numeric id and the marker-driven
/// boolean flags found in the page text.
#[derive(Clone, Copy, Debug, PartialEq, Eq, Structural)]
pub struct Properties {
    pub command_id: usize,
    pub preemptive: bool,
    /// The OK variable is changed by the command.
    pub modify_ok: bool,
    /// The command modifies the system Document variable.
    pub modify_document: bool,
    /// The command modifies the LockedSet system set.
    pub modify_locked_set: bool,
    /// The command modifies the UserSet system set.
    pub modify_user_set: bool,
    /// The command modifies the Error system variable.
    pub modify_error: bool,
    /// The command changes the current record.
    pub modify_record: bool,
    /// The command changes the current selection.
    pub modify_selection: bool,
    /// The command behaves differently in remote mode.
    pub remote: bool,
    /// The command is not for the server.
    pub not_for_server: bool,
}

/// The record read off a page text: the labelled number and one boolean per
/// fixed marker substring, each tested independently.
pub open spec fn spec_props(s: Seq<char>) -> Properties {
    Properties {
        command_id: spec_command_id(s) as usize,
        preemptive: contains_pat(s, "image/prop/preemption.xx.png"@),
        modify_ok: contains_pat(s, "image/prop/ok.xx.png"@),
        modify_document: contains_pat(s, "image/prop/document.xx.png"@),
        modify_locked_set: contains_pat(s, "image/prop/lockedset.xx.png"@),
        modify_user_set: contains_pat(s, "image/prop/userset.xx.png"@),
        modify_error: contains_pat(s, "image/prop/error.xx.png"@),
        modify_record: contains_pat(s, "image/prop/currentrecord.xx.png"@),
        modify_selection: contains_pat(s, "image/prop/currentsel.xx.png"@),
        remote: contains_pat(s, "image/prop/remotedifferent.xx.png"@),
        not_for_server: contains_pat(s, "image/prop/notcs.xx.png"@),
    }
}

/// A valid positive id is a hard gate: without one the page yields no record
/// at all, whatever the boolean flags would have been.
pub open spec fn spec_from(s: Seq<char>) -> Option<Properties> {
    if spec_command_id(s) == 0 {
        None
    } else {
        Some(spec_props(s))
    }
}

impl Properties {
    /// The empty record: id 0 and every flag off.
    pub fn new() -> (r: Self)
        ensures
            r == (Properties {
                command_id: 0,
                preemptive: false,
                modify_ok: false,
                modify_document: false,
                modify_locked_set: false,
                modify_user_set: false,
                modify_error: false,
                modify_record: false,
                modify_selection: false,
                remote: false,
                not_for_server: false,
            }),
    {
        Properties {
            command_id: 0,
            preemptive: false,
            modify_ok: false,
            modify_document: false,
            modify_locked_set: false,
            modify_user_set: false,
            modify_error: false,
            modify_record: false,
            modify_selection: false,
            remote: false,
            not_for_server: false,
        }
    }

    /// Reads a record from a page text, or nothing when no usable labelled
    /// number is present.
    pub fn from(content: &str) -> (r: Option<Self>)
        ensures
            r == spec_from(content@),
    {
        let cs = chars_of(content);
        let command_id = extract_command_id(&cs);
        if command_id == 0 {
            return None;
        }
        Some(
            Properties {
                command_id,
                preemptive: contains_chars(&cs, &chars_of("image/prop/preemption.xx.png")),
                modify_ok: contains_chars(&cs, &chars_of("image/prop/ok.xx.png")),
                modify_document: contains_chars(&cs, &chars_of("image/prop/document.xx.png")),
                modify_locked_set: contains_chars(&cs, &chars_of("image/prop/lockedset.xx.png")),
                modify_user_set: contains_chars(&cs, &chars_of("image/prop/userset.xx.png")),
                modify_error: contains_chars(&cs, &chars_of("image/prop/error.xx.png")),
                modify_record: contains_chars(&cs, &chars_of("image/prop/currentrecord.xx.png")),
                modify_selection: contains_chars(&cs, &chars_of("image/prop/currentsel.xx.png")),
                remote: contains_chars(&cs, &chars_of("image/prop/remotedifferent.xx.png")),
                not_for_server: contains_chars(&cs, &chars_of("image/prop/notcs.xx.png")),
            },
        )
    }
}

/// A page without any occurrence of the labelled-number pattern yields no
/// record, whatever markers it holds.
pub proof fn lemma_no_number_no_record(s: Seq<char>)
    requires
        forall|i: int| !crate::extract::id_match_at(s, i),
    ensures
        spec_from(s) is None,
{
    crate::extract::lemma_first_none(s, 0);
}

} // verus!
