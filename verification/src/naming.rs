//! Names of support threads as tickets are closed, fixed and reopened.
use vstd::prelude::*;
use vstd::string::StringExecFns;

use crate::text::{
    contains_seq, first_chars, lemma_removed_not_longer, lemma_replaced_absent,
    lemma_replaced_keeps_front, lemma_replaced_prefix, occurs_at, replace_all, replaced, take_chars,
};

verus! {

/// The marker put before the name of a closed ticket.
pub open spec fn closed_marker() -> Seq<char> {
    "[Closed] - "@
}

/// The marker put before the name of a fixed ticket.
pub open spec fn fixed_marker() -> Seq<char> {
    "[Fixed] - "@
}

/// The name of a closed ticket: `"[Closed] - {name}"`, cut to 100 characters.
pub open spec fn closed_name_spec(name: Seq<char>) -> Seq<char> {
    first_chars(closed_marker() + name, 100)
}

/// The name of a fixed ticket: `"[Fixed] - {name}"`, cut to 100 characters.
pub open spec fn fixed_name_spec(name: Seq<char>) -> Seq<char> {
    first_chars(fixed_marker() + name, 100)
}

/// The name of a reopened ticket: every `"[Fixed] - "` taken out, then every
/// `"[Closed] - "` taken out of what is left.
pub open spec fn reopened_name_spec(name: Seq<char>) -> Seq<char> {
    replaced(replaced(name, fixed_marker(), Seq::empty()), closed_marker(), Seq::empty())
}

/// The name that closing gives the thread named `name`.
pub fn closed_name(name: &str) -> (r: String)
    ensures
        r@ == closed_name_spec(name@),
        r@.len() <= 100,
{
    let mut full = String::from_str("[Closed] - ");
    full.append(name);
    take_chars(full.as_str(), crate::MAX_NAME_CHARS)
}

/// The name that marking as fixed gives the thread named `name`.
pub fn fixed_name(name: &str) -> (r: String)
    ensures
        r@ == fixed_name_spec(name@),
        r@.len() <= 100,
{
    let mut full = String::from_str("[Fixed] - ");
    full.append(name);
    take_chars(full.as_str(), crate::MAX_NAME_CHARS)
}

/// The name that reopening gives the thread named `name`.
pub fn reopened_name(name: &str) -> (r: String)
    ensures
        r@ == reopened_name_spec(name@),
        r@.len() <= name@.len(),
{
    proof {
        reveal_strlit("[Fixed] - ");
        reveal_strlit("[Closed] - ");
        reveal_strlit("");
        assert(""@ =~= Seq::<char>::empty());
    }
    let without_fixed = replace_all(name, "[Fixed] - ", "");
    proof {
        lemma_removed_not_longer(name@, fixed_marker());
        lemma_removed_not_longer(without_fixed@, closed_marker());
    }
    replace_all(without_fixed.as_str(), "[Closed] - ", "")
}

/// No occurrence of `"[Fixed] - "` can start inside the closed marker.
proof fn lemma_closed_marker_hides_fixed(name: Seq<char>)
    requires
        !contains_seq(name, fixed_marker()),
    ensures
        !contains_seq(closed_marker() + name, fixed_marker()),
{
    reveal_strlit("[Fixed] - ");
    reveal_strlit("[Closed] - ");
    let s = closed_marker() + name;
    let p = fixed_marker();
    assert forall|i: int| !occurs_at(s, p, i) by {
        if occurs_at(s, p, i) {
            if i < 11 {
                assert(s.subrange(i, i + p.len())[0] == p[0]);
                assert(s.subrange(i, i + p.len())[1] == p[1]);
                assert(s[i] == '[');
                assert(s[i + 1] == 'F');
            } else {
                assert(s.subrange(i, i + p.len()) =~= name.subrange(i - 11, i - 11 + p.len()));
                assert(occurs_at(name, p, i - 11));
            }
        }
    }
}

/// Reopening a ticket that was closed gives back its name, for a name short
/// enough not to be cut and holding neither marker.
pub proof fn lemma_reopen_after_close(name: Seq<char>)
    requires
        name.len() + 11 <= 100,
        !contains_seq(name, fixed_marker()),
        !contains_seq(name, closed_marker()),
    ensures
        reopened_name_spec(closed_name_spec(name)) == name,
{
    reveal_strlit("[Fixed] - ");
    reveal_strlit("[Closed] - ");
    let closed = closed_marker() + name;
    assert(closed_name_spec(name) == closed);
    lemma_closed_marker_hides_fixed(name);
    lemma_replaced_absent(closed, fixed_marker(), Seq::empty());
    lemma_replaced_prefix(closed_marker(), name, Seq::empty());
    lemma_replaced_absent(name, closed_marker(), Seq::empty());
    assert(Seq::<char>::empty() + name =~= name);
}

/// Reopening a ticket that was marked fixed gives back its name, for a name
/// short enough not to be cut and holding neither marker.
pub proof fn lemma_reopen_after_fix(name: Seq<char>)
    requires
        name.len() + 10 <= 100,
        !contains_seq(name, fixed_marker()),
        !contains_seq(name, closed_marker()),
    ensures
        reopened_name_spec(fixed_name_spec(name)) == name,
{
    reveal_strlit("[Fixed] - ");
    reveal_strlit("[Closed] - ");
    let fixed = fixed_marker() + name;
    assert(fixed_name_spec(name) == fixed);
    lemma_replaced_prefix(fixed_marker(), name, Seq::empty());
    lemma_replaced_absent(name, fixed_marker(), Seq::empty());
    assert(Seq::<char>::empty() + name =~= name);
    lemma_replaced_absent(name, closed_marker(), Seq::empty());
}

/// Reopening a ticket whose name holds neither marker leaves the name as
/// it is.
pub proof fn lemma_reopen_plain_name(name: Seq<char>)
    requires
        !contains_seq(name, fixed_marker()),
        !contains_seq(name, closed_marker()),
    ensures
        reopened_name_spec(name) == name,
{
    lemma_replaced_absent(name, fixed_marker(), Seq::empty());
    lemma_replaced_absent(name, closed_marker(), Seq::empty());
}


/// No `"[Fixed] - "` starts inside a leading closed marker.
proof fn lemma_no_fixed_in_closed_marker(rest: Seq<char>)
    ensures
        forall|i: int| 0 <= i < closed_marker().len() ==> !occurs_at(closed_marker() + rest, fixed_marker(), i),
{
    reveal_strlit("[Fixed] - ");
    reveal_strlit("[Closed] - ");
    let s = closed_marker() + rest;
    let p = fixed_marker();
    assert forall|i: int| 0 <= i < closed_marker().len() implies !occurs_at(s, p, i) by {
        if occurs_at(s, p, i) {
            assert(s.subrange(i, i + p.len())[0] == p[0]);
            assert(s.subrange(i, i + p.len())[1] == p[1]);
            assert(s[i] == '[');
            assert(s[i + 1] == 'F');
        }
    }
}

/// Reopening undoes any two of closing and marking fixed, in any order: a
/// ticket closed after it was fixed, fixed after it was closed, or closed
/// twice gets its name back, for a name short enough not to be cut and
/// holding neither marker.
pub proof fn lemma_reopen_after_two_marks(name: Seq<char>)
    requires
        name.len() + 22 <= 100,
        !contains_seq(name, fixed_marker()),
        !contains_seq(name, closed_marker()),
    ensures
        reopened_name_spec(closed_name_spec(fixed_name_spec(name))) == name,
        reopened_name_spec(fixed_name_spec(closed_name_spec(name))) == name,
        reopened_name_spec(closed_name_spec(closed_name_spec(name))) == name,
{
    reveal_strlit("[Fixed] - ");
    reveal_strlit("[Closed] - ");
    let c = closed_marker();
    let f = fixed_marker();
    let e = Seq::<char>::empty();
    lemma_closed_marker_hides_fixed(name);
    // The name with one closed marker reopens to the name.
    lemma_replaced_prefix(c, name, e);
    lemma_replaced_absent(name, c, e);
    assert(e + name =~= name);
    assert(replaced(c + name, c, e) == name);
    lemma_replaced_absent(c + name, f, e);

    // Closed after fixed.
    let cf = c + (f + name);
    assert(closed_name_spec(fixed_name_spec(name)) == cf);
    lemma_no_fixed_in_closed_marker(f + name);
    lemma_replaced_keeps_front(c, f + name, f, e);
    lemma_replaced_prefix(f, name, e);
    lemma_replaced_absent(name, f, e);
    assert(replaced(cf, f, e) =~= c + name);

    // Fixed after closed.
    let fc = f + (c + name);
    assert(fixed_name_spec(closed_name_spec(name)) == fc);
    lemma_replaced_prefix(f, c + name, e);
    assert(replaced(fc, f, e) =~= c + name);

    // Closed twice.
    let cc = c + (c + name);
    assert(closed_name_spec(closed_name_spec(name)) == cc);
    lemma_no_fixed_in_closed_marker(c + name);
    lemma_replaced_keeps_front(c, c + name, f, e);
    assert(replaced(cc, f, e) =~= cc);
    lemma_replaced_prefix(c, c + name, e);
    assert(replaced(cc, c, e) =~= replaced(c + name, c, e));
}

} // verus!
