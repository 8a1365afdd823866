//! The submitted support-ticket modal opens a private support thread.
use vstd::prelude::*;
use vstd::string::StringExecFns;

use crate::mention::{mention_text, Mention};
use crate::text::equal_text;
use crate::{title_case, to_title_case, EmbedDef};

verus! {

/// Handler of the submitted support-ticket modal.
pub struct TicketModal;

/// The value of the first field named `key`.
pub open spec fn field(fields: Seq<(Seq<char>, Seq<char>)>, key: Seq<char>) -> Option<Seq<char>>
    decreases fields.len(),
{
    if fields.len() == 0 {
        None
    } else if fields[0].0 == key {
        Some(fields[0].1)
    } else {
        field(fields.skip(1), key)
    }
}

/// A field that gets an embed of its own: neither the issue nor the
/// version, and not left empty.
pub open spec fn extra_field(f: (Seq<char>, Seq<char>)) -> bool {
    f.0 != "issue"@ && f.0 != "version"@ && f.1.len() > 0
}

/// The (title, description) of the embeds of the extra fields, in order:
/// the field's name in title case, and its value.
pub open spec fn extra_embeds(fields: Seq<(Seq<char>, Seq<char>)>) -> Seq<(Seq<char>, Seq<char>)>
    decreases fields.len(),
{
    if fields.len() == 0 {
        Seq::empty()
    } else {
        let f = fields.last();
        extra_embeds(fields.drop_last()) + if extra_field(f) {
            seq![(title_case(f.0), f.1)]
        } else {
            Seq::empty()
        }
    }
}

/// Every extra embed comes from a filled-in field: its description is that
/// field's value, never empty, and its title that field's name in title
/// case, and the field is neither the issue nor the version.  A field left
/// blank never gives an embed.
pub proof fn lemma_extra_embeds_from_filled_fields(fields: Seq<(Seq<char>, Seq<char>)>)
    ensures
        forall|k: int| 0 <= k < extra_embeds(fields).len() ==> {
            &&& (#[trigger] extra_embeds(fields)[k]).1.len() > 0
            &&& exists|j: int| 0 <= j < fields.len() && {
                &&& (#[trigger] fields[j]).1 == extra_embeds(fields)[k].1
                &&& fields[j].0 != "issue"@
                &&& fields[j].0 != "version"@
                &&& extra_embeds(fields)[k].0 == title_case(fields[j].0)
            }
        },
    decreases fields.len(),
{
    if fields.len() > 0 {
        let init = fields.drop_last();
        lemma_extra_embeds_from_filled_fields(init);
        let f = fields.last();
        let before = extra_embeds(init);
        let all = extra_embeds(fields);
        assert forall|k: int| 0 <= k < all.len() implies {
            &&& (#[trigger] all[k]).1.len() > 0
            &&& exists|j: int| 0 <= j < fields.len() && {
                &&& (#[trigger] fields[j]).1 == all[k].1
                &&& fields[j].0 != "issue"@
                &&& fields[j].0 != "version"@
                &&& all[k].0 == title_case(fields[j].0)
            }
        } by {
            if k < before.len() {
                assert(all[k] == before[k]);
                let j = choose|j: int| 0 <= j < init.len() && {
                    &&& (#[trigger] init[j]).1 == before[k].1
                    &&& init[j].0 != "issue"@
                    &&& init[j].0 != "version"@
                    &&& before[k].0 == title_case(init[j].0)
                };
                assert(fields[j] == init[j]);
            } else {
                assert(extra_field(f));
                assert(all[k] == (title_case(f.0), f.1));
                assert(fields[fields.len() - 1] == f);
            }
        }
    }
}

/// The fields of a submitted modal as views.
pub open spec fn field_views(fields: Seq<(String, String)>) -> Seq<(Seq<char>, Seq<char>)> {
    fields.map_values(|f: (String, String)| (f.0@, f.1@))
}

/// The text of the reply that points the user to the new thread.
pub open spec fn thread_created_spec(thread_id: u64) -> Seq<char> {
    "Support thread created: "@ + mention_text(Mention::Channel(thread_id))
}

fn find_field(fields: &Vec<(String, String)>, key: &str) -> (r: Option<String>)
    ensures
        match field(field_views(fields@), key@) {
            Some(v) => r matches Some(x) && x@ == v,
            None => r is None,
        },
{
    let ghost views = field_views(fields@);
    let mut k: usize = 0;
    assert(views.skip(0) =~= views);
    while k < fields.len()
        invariant
            k <= fields@.len(),
            views == field_views(fields@),
            field(views, key@) == field(views.skip(k as int), key@),
        decreases fields@.len() - k,
    {
        assert(views.skip(k as int)[0] == (fields@[k as int].0@, fields@[k as int].1@));
        if equal_text(fields[k].0.as_str(), key) {
            return Some(fields[k].1.clone());
        }
        assert(views.skip(k as int).skip(1) =~= views.skip(k + 1));
        k += 1;
    }
    assert(views.skip(k as int) =~= Seq::<(Seq<char>, Seq<char>)>::empty());
    None
}

impl TicketModal {
    /// The embeds of a new support thread from the fields of the submitted
    /// modal (name, value), in the order given: first the issue, with the
    /// version as its footer when there is one, then one embed per other
    /// non-empty field.  `None` when there is no issue field (the handler
    /// stops there).
    pub fn ticket_embeds(fields: &Vec<(String, String)>) -> (r: Option<Vec<EmbedDef>>)
        ensures
            match field(field_views(fields@), "issue"@) {
                None => r is None,
                Some(issue) => r matches Some(es) && {
                    let extra = extra_embeds(field_views(fields@));
                    &&& es@.len() == extra.len() + 1
                    &&& es@[0].title@ == "Issue"@
                    &&& es@[0].description@ == issue
                    &&& match field(field_views(fields@), "version"@) {
                        Some(v) => es@[0].footer matches Some(x) && x@ == v,
                        None => es@[0].footer is None,
                    }
                    &&& forall|k: int| 0 <= k < extra.len() ==> {
                        &&& (#[trigger] es@[k + 1]).title@ == extra[k].0
                        &&& es@[k + 1].description@ == extra[k].1
                        &&& es@[k + 1].footer is None
                    }
                    &&& forall|k: int| 1 <= k < es@.len() ==> (#[trigger] es@[k]).description@.len() > 0
                },
            },
    {
        let issue = match find_field(fields, "issue") {
            None => return None,
            Some(i) => i,
        };
        let version = find_field(fields, "version");
        let mut es: Vec<EmbedDef> = Vec::new();
        es.push(EmbedDef { title: String::from_str("Issue"), description: issue, footer: version });
        let ghost views = field_views(fields@);
        let mut k: usize = 0;
        assert(views.take(0) =~= Seq::<(Seq<char>, Seq<char>)>::empty());
        while k < fields.len()
            invariant
                k <= fields@.len(),
                views == field_views(fields@),
                es@.len() == extra_embeds(views.take(k as int)).len() + 1,
                es@[0].title@ == "Issue"@,
                es@[0].description@ == field(views, "issue"@).unwrap(),
                match field(views, "version"@) {
                    Some(v) => es@[0].footer matches Some(x) && x@ == v,
                    None => es@[0].footer is None,
                },
                forall|j: int| 0 <= j < extra_embeds(views.take(k as int)).len() ==> {
                    &&& (#[trigger] es@[j + 1]).title@ == extra_embeds(views.take(k as int))[j].0
                    &&& es@[j + 1].description@ == extra_embeds(views.take(k as int))[j].1
                    &&& es@[j + 1].footer is None
                },
            decreases fields@.len() - k,
        {
            let ghost before = extra_embeds(views.take(k as int));
            assert(views.take(k + 1).drop_last() =~= views.take(k as int));
            assert(views.take(k + 1).last() == (fields@[k as int].0@, fields@[k as int].1@));
            let name = fields[k].0.as_str();
            let value = fields[k].1.as_str();
            if !equal_text(name, "issue") && !equal_text(name, "version") && !value.is_empty() {
                let title = to_title_case(name);
                es.push(EmbedDef { title, description: String::from_str(value), footer: None });
            }
            k += 1;
            assert forall|j: int| 0 <= j < extra_embeds(views.take(k as int)).len() implies {
                &&& (#[trigger] es@[j + 1]).title@ == extra_embeds(views.take(k as int))[j].0
                &&& es@[j + 1].description@ == extra_embeds(views.take(k as int))[j].1
                &&& es@[j + 1].footer is None
            } by {
                if j < before.len() {
                    assert(extra_embeds(views.take(k as int))[j] == before[j]);
                }
            }
        }
        assert(views.take(k as int) =~= views);
        proof {
            lemma_extra_embeds_from_filled_fields(views);
            assert forall|j: int| 1 <= j < es@.len() implies (#[trigger] es@[j]).description@.len() > 0 by {
                assert(es@[(j - 1) + 1].description@ == extra_embeds(views)[j - 1].1);
            }
        }
        Some(es)
    }

    /// The reply that points the user to the new thread.
    pub fn thread_created_text(thread_id: u64) -> (s: String)
        requires
            thread_id != 0,
        ensures
            s@ == thread_created_spec(thread_id),
    {
        let mut s = String::from_str("Support thread created: ");
        let m = Mention::Channel(thread_id).text();
        s.append(m.as_str());
        s
    }

    /// The mentions of a thread opened from the modal: the ticket's roles,
    /// then the user who submitted it.
    pub fn mentions(role_ids: &Vec<u64>, user_id: u64) -> (ms: Vec<Mention>)
        ensures
            ms@ == role_ids@.map_values(|id: u64| Mention::Role(id)) + seq![Mention::User(user_id)],
    {
        let mut ms: Vec<Mention> = Vec::new();
        let mut k: usize = 0;
        while k < role_ids.len()
            invariant
                k <= role_ids@.len(),
                ms@ == role_ids@.take(k as int).map_values(|id: u64| Mention::Role(id)),
            decreases role_ids@.len() - k,
        {
            ms.push(Mention::Role(role_ids[k]));
            k += 1;
            assert(ms@ =~= role_ids@.take(k as int).map_values(|id: u64| Mention::Role(id)));
        }
        assert(role_ids@.take(k as int) =~= role_ids@);
        ms.push(Mention::User(user_id));
        ms
    }
}

} // verus!
