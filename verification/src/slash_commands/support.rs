//! `/support`: looking up and listing the FAQ messages of a guild.
//!
//! An FAQ message starts with a line such as `**Title**`; the title is that
//! first line, trimmed, without its first and last two bytes.
use vstd::prelude::*;
use vstd::string::StringExecFns;

use crate::text::{
    byte_slice, byte_slice_of, chars_of, contains_chars, contains_seq, decimal, first_line,
    first_line_end, matches_at, string_of_range, sub_vec, trim_bounds, trimmed, u64_to_decimal,
    utf8_len, utf8_length, without_prefix,
};

verus! {

/// Handlers of the `/support` command.
pub struct SupportCommand;

/// An FAQ entry: the title from its first line and the text after that line.
pub struct FaqEntry {
    pub title: String,
    pub description: String,
}

/// What looking up an id in one FAQ message gives.
pub enum FaqLookup {
    /// The message's first line contains the id.
    Found(FaqEntry),
    /// It does not; the search goes on.
    Elsewhere,
}

/// One option of the FAQ select menu: the entry's title, and its position
/// among the FAQ messages as the value.
pub struct FaqOption {
    pub label: String,
    pub value: String,
}

/// The id line of an FAQ message: its first line, trimmed.  `None` for an
/// empty message, which has no first line.
pub open spec fn support_id_spec(content: Seq<char>) -> Option<Seq<char>> {
    match first_line(content) {
        Some(line) => Some(trimmed(line)),
        None => None,
    }
}

/// The title in an id line, `&id[2..id.len() - 2]`; `None` where that slice
/// panics (fewer than 4 bytes, or a cut inside a character).
pub open spec fn faq_title_spec(id: Seq<char>) -> Option<Seq<char>> {
    if utf8_len(id) < 2 {
        None
    } else {
        byte_slice(id, 2, utf8_len(id) - 2)
    }
}

/// Looking up `id` in the FAQ message `content`: `None` where the lookup
/// panics on this message (it has no first line, its title cannot be cut
/// out, or the message does not start with its trimmed first line), else
/// whether the id line contains `id`, with the entry when it does.
pub open spec fn faq_lookup_spec(content: Seq<char>, id: Seq<char>) -> Option<Option<(Seq<char>, Seq<char>)>> {
    match support_id_spec(content) {
        None => None,
        Some(sid) => match (faq_title_spec(sid), without_prefix(content, sid)) {
            (Some(title), Some(description)) => Some(
                if contains_seq(sid, id) { Some((title, description)) } else { None },
            ),
            _ => None,
        },
    }
}

/// The select-menu option for the FAQ message `content` at position
/// `index`; `None` where listing panics on this message.
pub open spec fn faq_option_spec(content: Seq<char>, index: nat) -> Option<(Seq<char>, Seq<char>)> {
    match support_id_spec(content) {
        None => None,
        Some(sid) => match faq_title_spec(sid) {
            Some(title) => Some((title, decimal(index))),
            None => None,
        },
    }
}

/// The title cut out of an id line.
fn faq_title_of(sid: &Vec<char>) -> (r: Option<String>)
    ensures
        match faq_title_spec(sid@) {
            Some(t) => r matches Some(x) && x@ == t,
            None => r is None,
        },
{
    let n = utf8_length(sid);
    if n < 2 {
        return None;
    }
    byte_slice_of(sid, 2, n - 2)
}

/// The characters of `content` and the id line of the message.
fn support_id_of(content: &str) -> (r: (Vec<char>, Option<Vec<char>>))
    ensures
        r.0@ == content@,
        match support_id_spec(content@) {
            Some(sid) => r.1 matches Some(x) && x@ == sid,
            None => r.1 is None,
        },
{
    let v = chars_of(content);
    match first_line_end(&v) {
        None => (v, None),
        Some(end) => {
            let (lo, hi) = trim_bounds(&v, 0, end);
            assert(v@.subrange(0, end as int) =~= v@.take(end as int));
            let sid = sub_vec(&v, lo, hi);
            (v, Some(sid))
        },
    }
}

impl SupportCommand {
    /// The reply to `/support get` when no FAQ message has the id.
    pub fn not_found_response() -> (r: String)
        ensures
            r@ == "Support message not found"@,
    {
        String::from_str("Support message not found")
    }

    /// The id of the FAQ select menu that `/support list` posts; picking in
    /// it is handled by `TicketComponent::support_faq`.
    pub fn faq_menu_id() -> (r: String)
        ensures
            r@ == "support_faq"@,
    {
        String::from_str("support_faq")
    }

    /// Looks up the FAQ id `id` in one FAQ message.
    pub fn faq_lookup(content: &str, id: &str) -> (r: Option<FaqLookup>)
        ensures
            match faq_lookup_spec(content@, id@) {
                None => r is None,
                Some(None) => r matches Some(FaqLookup::Elsewhere),
                Some(Some((t, d))) => r matches Some(FaqLookup::Found(e))
                    && e.title@ == t && e.description@ == d,
            },
    {
        let (v, sid) = support_id_of(content);
        let sid = match sid {
            None => return None,
            Some(sid) => sid,
        };
        let title = match faq_title_of(&sid) {
            None => return None,
            Some(t) => t,
        };
        if !matches_at(&v, 0, &sid) {
            return None;
        }
        let description = string_of_range(&v, sid.len(), v.len());
        assert(v@.subrange(sid@.len() as int, v@.len() as int) =~= v@.skip(sid@.len() as int));
        let wanted = chars_of(id);
        if contains_chars(&sid, &wanted) {
            Some(FaqLookup::Found(FaqEntry { title, description }))
        } else {
            Some(FaqLookup::Elsewhere)
        }
    }

    /// The select-menu option for the FAQ message `content` at `index`.
    pub fn faq_option(content: &str, index: usize) -> (r: Option<FaqOption>)
        ensures
            match faq_option_spec(content@, index as nat) {
                None => r is None,
                Some((l, v)) => r matches Some(o) && o.label@ == l && o.value@ == v,
            },
    {
        let (_v, sid) = support_id_of(content);
        let sid = match sid {
            None => return None,
            Some(sid) => sid,
        };
        match faq_title_of(&sid) {
            None => None,
            Some(label) => Some(FaqOption { label, value: u64_to_decimal(index as u64) }),
        }
    }
}

/// The value of the option at `index` reads back as `index`: what the
/// select menu lists is what the FAQ handler picks
/// (`TicketComponent::faq_index` on `[value]` gives `index`).
pub proof fn lemma_faq_option_round_trip(content: Seq<char>, index: usize)
    ensures
        faq_option_spec(content, index as nat) matches Some((_l, v))
            ==> crate::components::faq_index_spec(seq![v]) == Some(index as int),
{
    crate::text::lemma_parse_decimal(index);
}

/// The label that `/support list` shows for an FAQ message is the title
/// that `/support get` answers with for it.
pub proof fn lemma_option_label_is_entry_title(content: Seq<char>, id: Seq<char>, index: nat)
    ensures
        faq_lookup_spec(content, id) matches Some(Some((t, _d)))
            ==> faq_option_spec(content, index) matches Some((l, _v)) && l == t,
{
}

/// A message is found for `id` only through its id line: `/support get`
/// answers with an FAQ message only if `id` occurs in the message's trimmed
/// first line, and a message whose first line lacks `id` is passed over,
/// whatever the rest of the message holds.
pub proof fn lemma_faq_lookup_reads_the_id_line(content: Seq<char>, id: Seq<char>)
    ensures
        faq_lookup_spec(content, id) matches Some(Some(_e))
            ==> first_line(content) matches Some(l) && contains_seq(trimmed(l), id),
        (faq_lookup_spec(content, id) is Some && first_line(content) is Some
            && !contains_seq(trimmed(first_line(content).unwrap()), id))
            ==> faq_lookup_spec(content, id) == Some(None::<(Seq<char>, Seq<char>)>),
{
}

/// Text after the first line does not change whether a message is found:
/// two messages with the same first line (and each starting with its id
/// line) give the same answer to the same id.
pub proof fn lemma_faq_lookup_ignores_the_body(line: Seq<char>, body1: Seq<char>, body2: Seq<char>, id: Seq<char>)
    requires
        !contains_seq(line, seq!['\n']),
    ensures
        (faq_lookup_spec(line + seq!['\n'] + body1, id) is Some
            && faq_lookup_spec(line + seq!['\n'] + body2, id) is Some)
            ==> (faq_lookup_spec(line + seq!['\n'] + body1, id).unwrap() is Some
                <==> faq_lookup_spec(line + seq!['\n'] + body2, id).unwrap() is Some),
{
    let c1 = line + seq!['\n'] + body1;
    let c2 = line + seq!['\n'] + body2;
    lemma_newline_index_after_line(line, body1);
    lemma_newline_index_after_line(line, body2);
    assert(c1.take(line.len() as int) =~= line);
    assert(c2.take(line.len() as int) =~= line);
    assert(c1[line.len() as int] == '\n');
    assert(c2[line.len() as int] == '\n');
    if line.len() > 0 {
        assert(c1[line.len() - 1] == line.last());
        assert(c2[line.len() - 1] == line.last());
        assert(c1.take(line.len() - 1) =~= line.drop_last());
        assert(c2.take(line.len() - 1) =~= line.drop_last());
    }
    assert(first_line(c1) == first_line(c2));
}

/// The first line ends at the first newline.
proof fn lemma_newline_index_after_line(line: Seq<char>, body: Seq<char>)
    requires
        !contains_seq(line, seq!['\n']),
    ensures
        crate::text::newline_index(line + seq!['\n'] + body) == line.len(),
    decreases line.len(),
{
    let s = line + seq!['\n'] + body;
    if line.len() == 0 {
        assert(s[0] == '\n');
    } else {
        assert(line[0] != '\n') by {
            if line[0] == '\n' {
                assert(line.subrange(0, 1) =~= seq!['\n']);
                assert(crate::text::occurs_at(line, seq!['\n'], 0));
            }
        }
        assert(s[0] == line[0]);
        assert(!contains_seq(line.skip(1), seq!['\n'])) by {
            if contains_seq(line.skip(1), seq!['\n']) {
                let j = choose|j: int| crate::text::occurs_at(line.skip(1), seq!['\n'], j);
                assert(line.skip(1).subrange(j, j + 1) =~= line.subrange(j + 1, j + 2));
                assert(crate::text::occurs_at(line, seq!['\n'], j + 1));
            }
        }
        lemma_newline_index_after_line(line.skip(1), body);
        assert(s.skip(1) =~= line.skip(1) + seq!['\n'] + body);
    }
}

} // verus!
