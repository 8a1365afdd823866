//! The ticket button, the support modal and the FAQ select menu.
use vstd::prelude::*;
use vstd::string::StringExecFns;

use crate::text::{
    contains_seq, lemma_split_on_absent, lemma_split_on_first, occurs_at, join_pieces, joined, parse_usize, parsed_usize, split_all, split_on, string_of_range,
    trim_bounds, trim_str, trimmed,
};

verus! {

/// Handlers of the ticket components (buttons and select menus).
pub struct TicketComponent;

/// How a text input of a modal is shown.
#[derive(Clone, Copy, Debug, PartialEq, Eq, Structural)]
pub enum InputStyle {
    Short,
    Paragraph,
}

/// One text input of a modal.
pub struct InputDef {
    pub style: InputStyle,
    pub label: String,
    pub custom_id: String,
    pub placeholder: String,
    pub required: bool,
}

/// A modal: its id, its title and its text inputs in order.
pub struct ModalDef {
    pub custom_id: String,
    pub title: String,
    pub inputs: Vec<InputDef>,
}

/// An embed with a title and a description.
pub struct FaqEmbed {
    pub title: String,
    pub description: String,
}

/// The title and the description of an FAQ message: the text is cut at
/// every `**`; the last piece, trimmed, is the description and the other
/// pieces, joined and trimmed, are the title.
pub open spec fn faq_embed_spec(content: Seq<char>) -> (Seq<char>, Seq<char>) {
    let parts = split_on(content, "**"@);
    (trimmed(joined(parts.drop_last(), Seq::empty())), trimmed(parts.last()))
}

/// The FAQ entry chosen in a select menu whose first value is `value`: the
/// value read as an index (`value.parse::<usize>()`).
pub open spec fn faq_index_spec(values: Seq<Seq<char>>) -> Option<int> {
    if values.len() == 0 {
        None
    } else {
        parsed_usize(values[0])
    }
}

impl TicketComponent {
    /// The modal that the support-ticket button opens: game version, issue
    /// and (optional) additional information.
    pub fn support_ticket_modal() -> (m: ModalDef)
        ensures
            m.custom_id@ == "support_ticket"@,
            m.title@ == "Support Ticket"@,
            m.inputs@.len() == 3,
            m.inputs@[0].style == InputStyle::Short,
            m.inputs@[0].label@ == "Game Version"@,
            m.inputs@[0].custom_id@ == "version"@,
            m.inputs@[0].placeholder@ == "1.0.0"@,
            m.inputs@[0].required,
            m.inputs@[1].style == InputStyle::Paragraph,
            m.inputs@[1].label@ == "Issue"@,
            m.inputs@[1].custom_id@ == "issue"@,
            m.inputs@[1].placeholder@ == "Describe the issue you're experiencing"@,
            m.inputs@[1].required,
            m.inputs@[2].style == InputStyle::Paragraph,
            m.inputs@[2].label@ == "Additional Information"@,
            m.inputs@[2].custom_id@ == "additional"@,
            m.inputs@[2].placeholder@
                == "Please send a save file that replicates the issue once the ticket is created."@,
            !m.inputs@[2].required,
    {
        let version = InputDef {
            style: InputStyle::Short,
            label: String::from_str("Game Version"),
            custom_id: String::from_str("version"),
            placeholder: String::from_str("1.0.0"),
            required: true,
        };
        let issue = InputDef {
            style: InputStyle::Paragraph,
            label: String::from_str("Issue"),
            custom_id: String::from_str("issue"),
            placeholder: String::from_str("Describe the issue you're experiencing"),
            required: true,
        };
        let additional = InputDef {
            style: InputStyle::Paragraph,
            label: String::from_str("Additional Information"),
            custom_id: String::from_str("additional"),
            placeholder: String::from_str(
                "Please send a save file that replicates the issue once the ticket is created.",
            ),
            required: false,
        };
        let mut inputs: Vec<InputDef> = Vec::new();
        inputs.push(version);
        inputs.push(issue);
        inputs.push(additional);
        ModalDef {
            custom_id: String::from_str("support_ticket"),
            title: String::from_str("Support Ticket"),
            inputs,
        }
    }

    /// The index of the FAQ entry picked in the select menu; `None` where
    /// there is no value or the first is no index (the handler stops there).
    pub fn faq_index(values: &Vec<String>) -> (r: Option<usize>)
        ensures
            match faq_index_spec(values@.map_values(|v: String| v@)) {
                Some(i) => r == Some(i as usize),
                None => r is None,
            },
    {
        if values.len() == 0 {
            return None;
        }
        parse_usize(values[0].as_str())
    }

    /// The embed that answers an FAQ pick, from the FAQ message's text.
    pub fn faq_embed(content: &str) -> (e: FaqEmbed)
        ensures
            (e.title@, e.description@) == faq_embed_spec(content@),
    {
        proof {
            reveal_strlit("**");
        }
        let mut parts = split_all(content, "**");
        let ghost pieces = split_on(content@, "**"@);
        proof {
            crate::text::lemma_split_on_nonempty(content@, "**"@);
        }
        let last = parts.pop().unwrap();
        let (lo, hi) = trim_bounds(&last, 0, last.len());
        assert(last@.subrange(0, last@.len() as int) =~= last@);
        let description = string_of_range(&last, lo, hi);
        let title_all = join_pieces(&parts, "");
        proof {
            reveal_strlit("");
            assert(""@ =~= Seq::<char>::empty());
            assert(parts@.map_values(|p: Vec<char>| p@) =~= pieces.drop_last());
        }
        let title = trim_str(title_all.as_str());
        FaqEmbed { title, description }
    }
}


/// An FAQ message `**title**description` is cut at the two-character
/// marker `**` and nowhere else: the embed's title is the trimmed title and
/// its description the trimmed description, single `*` characters in the
/// description included.  (A title that ends in `*` would make a `**` with
/// the closing marker, so it is left out.)
pub proof fn lemma_faq_embed_cuts_at_markers(t: Seq<char>, d: Seq<char>)
    requires
        !contains_seq(t, "**"@),
        t.len() == 0 || t.last() != '*',
        !contains_seq(d, "**"@),
    ensures
        faq_embed_spec("**"@ + t + "**"@ + d) == (trimmed(t), trimmed(d)),
{
    reveal_strlit("**");
    let p = "**"@;
    let e = Seq::<char>::empty();
    let content = p + t + p + d;
    assert(content =~= e + p + (t + p + d));
    lemma_split_on_first(e, p, t + p + d);
    assert forall|i: int| 0 <= i < t.len() implies !occurs_at(t + p + d, p, i) by {
        let s = t + p + d;
        if occurs_at(s, p, i) {
            if i + 2 <= t.len() {
                assert(s.subrange(i, i + 2) =~= t.subrange(i, i + 2));
                assert(occurs_at(t, p, i));
            } else {
                assert(i == t.len() - 1);
                assert(s.subrange(i, i + 2)[0] == p[0]);
                assert(s[i] == t.last());
            }
        }
    }
    lemma_split_on_first(t, p, d);
    lemma_split_on_absent(d, p);
    let parts = split_on(content, p);
    assert(parts =~= seq![e, t, d]);
    assert(parts.drop_last() =~= seq![e, t]);
    assert(seq![e, t].drop_last() =~= seq![e]);
    assert(joined(seq![e], e) == e);
    assert(seq![e, t].last() == t);
    assert(joined(seq![e, t], e) == joined(seq![e], e) + e + t);
    assert(e + e + t =~= t);
}

} // verus!
