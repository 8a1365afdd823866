//! Support-ticket logic for a Discord bot: thread and channel naming,
//! FAQ message parsing, mention lists and the command and modal layouts.
use vstd::prelude::*;
use vstd::string::StringExecFns;

pub mod components;
pub mod error;
pub mod message_command;
pub mod modal;
pub mod mention;
pub mod naming;
pub mod ready;
pub mod slash_commands;
pub mod support_guild_manager;
pub mod text;

pub use components::TicketComponent;
pub use error::Error;
pub use message_command::SupportMessageCommand;
pub use modal::TicketModal;
pub use slash_commands::{SupportCommand, TicketCommand};
pub use support_guild_manager::TicketGuildRow;

use crate::text::{
    ascii_lower, ascii_only, ascii_upper, is_ascii_char, is_white, lemma_ascii_case, lemma_joined_concat,
    lemma_words_after_space, lemma_words_are_words, lemma_words_ascii, lemma_words_map,
    lemma_words_of_joined, no_white, char_to_uppercase, first_chars, joined, lower_of, push_char, push_signed_decimal,
    signed_decimal, split_words, str_to_lowercase, string_of_range, take_chars, upper_of, words,
};

verus! {

/// Marker for the support side of the bot.
pub struct Support;

/// Marker for the ticket side of the bot.
pub struct Ticket;

/// Longest name, in characters, that Discord accepts for a thread or channel.
pub const MAX_NAME_CHARS: usize = 100;

/// The name of a new support thread: `"{thread_id} - {author_name} - {content}"`
/// cut to its first 100 characters.
pub open spec fn thread_name_spec(thread_id: i32, author_name: Seq<char>, content: Seq<char>) -> Seq<char> {
    first_chars(signed_decimal(thread_id as int) + " - "@ + author_name + " - "@ + content, 100)
}

/// The name of a new support thread.
pub fn thread_name(thread_id: i32, author_name: &str, content: &str) -> (name: String)
    ensures
        name@ == thread_name_spec(thread_id, author_name@, content@),
        name@.len() <= 100,
{
    let mut full = String::new();
    push_signed_decimal(&mut full, thread_id);
    full.append(" - ");
    full.append(author_name);
    full.append(" - ");
    full.append(content);
    take_chars(full.as_str(), MAX_NAME_CHARS)
}

/// A word with its first character upper-cased and the rest lower-cased.
pub open spec fn title_word(w: Seq<char>) -> Seq<char> {
    if w.len() == 0 {
        Seq::empty()
    } else {
        upper_of(w[0]) + lower_of(w.skip(1))
    }
}

/// The whitespace-separated words of `s`, each in title case, joined by
/// single spaces.
pub open spec fn title_case(s: Seq<char>) -> Seq<char> {
    joined(words(s).map_values(|w: Seq<char>| title_word(w)), seq![' '])
}

fn title_word_of(w: &Vec<char>) -> (r: String)
    ensures
        r@ == title_word(w@),
{
    if w.len() == 0 {
        return String::new();
    }
    let mut r = char_to_uppercase(w[0]);
    let rest = string_of_range(w, 1, w.len());
    let lower = str_to_lowercase(rest.as_str());
    r.append(lower.as_str());
    assert(w@.subrange(1, w@.len() as int) =~= w@.skip(1));
    r
}

/// `input` in title case: each word's first character upper-cased and the
/// rest lower-cased, words separated by one space.
pub fn to_title_case(input: &str) -> (r: String)
    ensures
        r@ == title_case(input@),
{
    let ws = split_words(input);
    let ghost titled = words(input@).map_values(|w: Seq<char>| title_word(w));
    let mut out = String::new();
    let mut k: usize = 0;
    assert(titled.take(0) =~= Seq::<Seq<char>>::empty());
    while k < ws.len()
        invariant
            k <= ws.len(),
            ws@.len() == words(input@).len(),
            forall|j: int| 0 <= j < ws@.len() ==> #[trigger] ws@[j]@ == words(input@)[j],
            titled == words(input@).map_values(|w: Seq<char>| title_word(w)),
            out@ == joined(titled.take(k as int), seq![' ']),
        decreases ws.len() - k,
    {
        proof {
            text::lemma_joined_take(titled, seq![' '], k as int);
        }
        if k > 0 {
            push_char(&mut out, ' ');
        }
        let t = title_word_of(&ws[k]);
        out.append(t.as_str());
        k += 1;
        assert(out@ =~= joined(titled.take(k as int), seq![' ']));
    }
    assert(titled.take(k as int) =~= titled);
    out
}


/// An embed: title, description and an optional footer.
pub struct EmbedDef {
    pub title: String,
    pub description: String,
    pub footer: Option<String>,
}

/// A button with the primary style.
pub struct ButtonDef {
    pub custom_id: String,
    pub label: String,
}

/// What one message of a support thread carries besides its own content:
/// the mentions, and the button that closes the ticket.
#[derive(Clone, Copy, Debug, PartialEq, Eq, Structural)]
pub struct MessageParts {
    pub mentions: bool,
    pub close_button: bool,
}

/// The parts of message `i` of the `count` messages that open a support
/// thread: a lone message carries both; otherwise the first carries the
/// mentions and the last the close button.
pub open spec fn message_parts_spec(count: nat, i: int) -> MessageParts {
    if count == 1 {
        MessageParts { mentions: true, close_button: true }
    } else {
        MessageParts { mentions: i == 0, close_button: i == count - 1 }
    }
}

/// The parts of each of the `count` messages that open a support thread.
/// A thread always opens with at least one message (sending none is a
/// fault: the index of the last message underflows).
pub fn support_message_parts(count: usize) -> (parts: Vec<MessageParts>)
    requires
        count >= 1,
    ensures
        parts@.len() == count,
        forall|i: int| 0 <= i < count ==> #[trigger] parts@[i] == message_parts_spec(count as nat, i),
{
    let mut parts: Vec<MessageParts> = Vec::new();
    let last = count - 1;
    let mut i: usize = 0;
    while i < count
        invariant
            i <= count,
            last == count - 1,
            parts@.len() == i,
            forall|j: int| 0 <= j < i ==> #[trigger] parts@[j] == message_parts_spec(count as nat, j),
        decreases count - i,
    {
        let p = if count == 1 {
            MessageParts { mentions: true, close_button: true }
        } else {
            MessageParts { mentions: i == 0, close_button: i == last }
        };
        parts.push(p);
        i += 1;
    }
    parts
}

/// Of the messages that open a support thread, exactly one carries the
/// mentions (the first) and exactly one the close button (the last).
pub proof fn lemma_mentions_and_button_once(count: nat, i: int)
    requires
        count >= 1,
        0 <= i < count,
    ensures
        message_parts_spec(count, i).mentions <==> i == 0,
        message_parts_spec(count, i).close_button <==> i == count - 1,
{
}

/// The button under the last message of a support thread, which closes the
/// ticket.
pub fn support_close_button() -> (b: ButtonDef)
    ensures
        b.custom_id@ == "support_close"@,
        b.label@ == "Close"@,
{
    ButtonDef { custom_id: String::from_str("support_close"), label: String::from_str("Close") }
}


/// Title case of two texts with words, put side by side with a space, is
/// the title case of each with a space between.
pub proof fn lemma_title_case_splits_at_space(a: Seq<char>, b: Seq<char>)
    requires
        words(a).len() > 0,
        words(b).len() > 0,
    ensures
        title_case(a + seq![' '] + b) == title_case(a) + seq![' '] + title_case(b),
{
    let g = |w: Seq<char>| title_word(w);
    lemma_words_after_space(a, b, Seq::empty());
    assert(words(a + seq![' '] + b) == words(a) + words(b));
    assert((words(a) + words(b)).map_values(g) =~= words(a).map_values(g) + words(b).map_values(g));
    lemma_joined_concat(words(a).map_values(g), words(b).map_values(g), seq![' ']);
}

/// The title case of an ASCII word: its first character in ASCII upper
/// case and the rest in ASCII lower case.
proof fn lemma_title_word_ascii(w: Seq<char>)
    requires
        w.len() > 0,
        ascii_only(w),
        no_white(w),
    ensures
        title_word(w) == seq![ascii_upper(w[0])] + w.skip(1).map_values(|c: char| ascii_lower(c)),
        title_word(w).len() > 0,
        ascii_only(title_word(w)),
        no_white(title_word(w)),
        title_word(title_word(w)) == title_word(w),
{
    let rest = w.skip(1);
    assert(ascii_only(rest)) by {
        assert forall|i: int| 0 <= i < rest.len() implies is_ascii_char(#[trigger] rest[i]) by {
            assert(rest[i] == w[i + 1]);
        }
    }
    assert(is_ascii_char(w[0]));
    let lowered = rest.map_values(|c: char| ascii_lower(c));
    let t = seq![ascii_upper(w[0])] + lowered;
    assert(title_word(w) == t);
    lemma_ascii_case(w[0]);
    assert forall|i: int| 0 <= i < t.len() implies is_ascii_char(#[trigger] t[i]) && !is_white(t[i]) by {
        if i > 0 {
            lemma_ascii_case(rest[i - 1]);
            assert(t[i] == ascii_lower(rest[i - 1]));
            assert(rest[i - 1] == w[i]);
        }
    }
    assert(t[0] == ascii_upper(w[0]));
    assert(t.skip(1) =~= lowered);
    assert(ascii_only(lowered)) by {
        assert forall|i: int| 0 <= i < lowered.len() implies is_ascii_char(#[trigger] lowered[i]) by {
            assert(lowered[i] == t[i + 1]);
        }
    }
    assert(lowered.map_values(|c: char| ascii_lower(c)) =~= lowered) by {
        assert forall|i: int| 0 <= i < lowered.len() implies lowered.map_values(|c: char| ascii_lower(c))[i] == #[trigger] lowered[i] by {
            lemma_ascii_case(rest[i]);
        }
    }
    assert(title_word(t) =~= t);
}

/// The title case of an ASCII text, written out over its words.
proof fn lemma_title_case_ascii_words(s: Seq<char>)
    requires
        ascii_only(s),
    ensures
        forall|k: int| 0 <= k < words(s).len() ==> {
            &&& (#[trigger] words(s)[k]).len() > 0
            &&& ascii_only(words(s)[k])
            &&& no_white(words(s)[k])
        },
{
    lemma_words_are_words(s, Seq::empty());
    lemma_words_ascii(s, Seq::empty());
}

/// Title case is idempotent on ASCII text: the title case of a title-cased
/// ASCII text is that text.
pub proof fn lemma_title_case_idempotent_ascii(s: Seq<char>)
    requires
        ascii_only(s),
    ensures
        title_case(title_case(s)) == title_case(s),
{
    let g = |w: Seq<char>| title_word(w);
    let ws = words(s);
    let tw = ws.map_values(g);
    lemma_title_case_ascii_words(s);
    assert forall|k: int| 0 <= k < tw.len() implies (#[trigger] tw[k]).len() > 0 && no_white(tw[k])
        && title_word(tw[k]) == tw[k] by {
        lemma_title_word_ascii(ws[k]);
    }
    lemma_words_of_joined(tw);
    assert(words(title_case(s)) == tw);
    assert(tw.map_values(g) =~= tw);
}

/// Title case of ASCII text does not depend on the letter case of its
/// input: lower-casing or upper-casing it first gives the same result.
pub proof fn lemma_title_case_ignores_ascii_case(s: Seq<char>)
    requires
        ascii_only(s),
    ensures
        title_case(s.map_values(|c: char| ascii_lower(c))) == title_case(s),
        title_case(s.map_values(|c: char| ascii_upper(c))) == title_case(s),
{
    let g = |w: Seq<char>| title_word(w);
    let lo = |c: char| ascii_lower(c);
    let up = |c: char| ascii_upper(c);
    assert forall|c: char| #[trigger] is_white(lo(c)) == is_white(c) by {
        lemma_ascii_case(c);
    }
    assert forall|c: char| #[trigger] is_white(up(c)) == is_white(c) by {
        lemma_ascii_case(c);
    }
    assert(Seq::<char>::empty().map_values(lo) =~= Seq::<char>::empty());
    assert(Seq::<char>::empty().map_values(up) =~= Seq::<char>::empty());
    lemma_words_map(s, Seq::empty(), lo);
    lemma_words_map(s, Seq::empty(), up);
    let ws = words(s);
    lemma_title_case_ascii_words(s);
    assert forall|k: int| 0 <= k < ws.len() implies
        title_word(#[trigger] ws[k].map_values(lo)) == title_word(ws[k])
        && title_word(ws[k].map_values(up)) == title_word(ws[k]) by {
        let w = ws[k];
        lemma_title_word_ascii(w);
        lemma_ascii_case(w[0]);
        let wl = w.map_values(lo);
        let wu = w.map_values(up);
        assert(ascii_only(wl) && no_white(wl)) by {
            assert forall|i: int| 0 <= i < wl.len() implies is_ascii_char(#[trigger] wl[i]) && !is_white(wl[i]) by {
                lemma_ascii_case(w[i]);
            }
        }
        assert(ascii_only(wu) && no_white(wu)) by {
            assert forall|i: int| 0 <= i < wu.len() implies is_ascii_char(#[trigger] wu[i]) && !is_white(wu[i]) by {
                lemma_ascii_case(w[i]);
            }
        }
        lemma_title_word_ascii(wl);
        lemma_title_word_ascii(wu);
        assert(wl.skip(1).map_values(lo) =~= w.skip(1).map_values(lo)) by {
            assert forall|i: int| #![trigger wl.skip(1)[i]] 0 <= i < w.skip(1).len() implies
                wl.skip(1).map_values(lo)[i] == w.skip(1).map_values(lo)[i] by {
                lemma_ascii_case(w[i + 1]);
            }
        }
        assert(wl.skip(1).map_values(|c: char| ascii_lower(c)) =~= wl.skip(1).map_values(lo));
        assert(w.skip(1).map_values(|c: char| ascii_lower(c)) =~= w.skip(1).map_values(lo));
        assert(wu.skip(1).map_values(lo) =~= w.skip(1).map_values(lo)) by {
            assert forall|i: int| #![trigger wu.skip(1)[i]] 0 <= i < w.skip(1).len() implies
                wu.skip(1).map_values(lo)[i] == w.skip(1).map_values(lo)[i] by {
                lemma_ascii_case(w[i + 1]);
            }
        }
        assert(wu.skip(1).map_values(|c: char| ascii_lower(c)) =~= wu.skip(1).map_values(lo));
        assert(w.skip(1).map_values(|c: char| ascii_lower(c)) =~= w.skip(1).map_values(lo));
    }
    assert(words(s.map_values(lo)).map_values(g) =~= ws.map_values(g)) by {
        assert(words(s.map_values(lo)) == ws.map_values(|w: Seq<char>| w.map_values(lo)));
    }
    assert(words(s.map_values(up)).map_values(g) =~= ws.map_values(g)) by {
        assert(words(s.map_values(up)) == ws.map_values(|w: Seq<char>| w.map_values(up)));
    }
}

} // verus!
