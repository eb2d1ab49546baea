//! Form records: a workspace asset holding an opaque definition, its owner and a soft-delete
//! tombstone. Saves are an owner-only upsert (a tombstoned form is treated as absent and is
//! re-created), deletes are an idempotent tombstone (owner, or a holder of the delete-any grant),
//! and reads skip tombstones.
use vstd::prelude::*;

use crate::json::{str_eq, Json};

verus! {

/// The stored form-document version.
pub const SCHEMA_VERSION: u32 = 1;

/// A form record.
pub struct Form {
    pub id: String,
    pub title: String,
    pub def: Json,
    pub owner: String,
    pub schema_version: u32,
    pub updated_ts: u64,
    pub deleted: bool,
}

/// The cheap roster row: id, title and update time, never the definition.
pub struct FormSummary {
    pub id: String,
    pub title: String,
    pub updated_ts: u64,
}

/// The form service error (`Denied` carries no detail).
pub enum FormError {
    Denied,
    NotFound,
    BadInput(String),
    Store(String),
}

impl FormSummary {
    /// The roster row of a form.
    pub fn from_form(f: &Form) -> (s: FormSummary)
        ensures
            s.id@ == f.id@,
            s.title@ == f.title@,
            s.updated_ts == f.updated_ts,
    {
        FormSummary { id: f.id.clone(), title: f.title.clone(), updated_ts: f.updated_ts }
    }
}

/// Upsert form `id` as the principal whose owner is `caller`. An empty id is refused. An existing
/// live form may be updated only by its owner (whose ownership is kept); a missing or tombstoned form
/// is created owned by the caller. The saved record carries the title, definition, current schema
/// version and time, and is live.
pub fn save_form(existing: Option<&Form>, caller: &str, id: &str, title: &str, def: Json, now: u64) -> (r: Result<Form, FormError>)
    ensures
        id@.len() == 0 ==> (r matches Err(FormError::BadInput(m)) && m@ == "empty form id"@),
        id@.len() > 0 && (existing matches Some(e) && !e.deleted && e.owner@ != caller@) ==> (r matches Err(FormError::Denied)),
        id@.len() > 0 && !(existing matches Some(e) && !e.deleted && e.owner@ != caller@) ==> (r matches Ok(f) && f.id@ == id@ && f.title@ == title@ && f.def == def && f.schema_version == SCHEMA_VERSION && f.updated_ts == now && !f.deleted && f.owner@ == caller@),
{
    if id.unicode_len() == 0 {
        return Err(FormError::BadInput(String::from_str("empty form id")));
    }
    match existing {
        Some(e) => {
            if !e.deleted && !str_eq(e.owner.as_str(), caller) {
                return Err(FormError::Denied);
            }
        },
        None => {},
    }
    Ok(Form {
        id: String::from_str(id),
        title: String::from_str(title),
        def,
        owner: String::from_str(caller),
        schema_version: SCHEMA_VERSION,
        updated_ts: now,
        deleted: false,
    })
}

/// `r` is what deleting `existing` as `caller` at `now` gives: an absent or already tombstoned form
/// is a no-op (`Ok(None)`); the owner, or a caller holding the delete-any grant, tombstones it
/// (stamped `now`); anyone else is denied.
pub open spec fn deleted_as(existing: Option<Form>, caller: Seq<char>, may_delete_any: bool, now: u64, r: Result<Option<Form>, FormError>) -> bool {
    match existing {
        None => r matches Ok(None),
        Some(e) => if e.deleted {
            r matches Ok(None)
        } else if e.owner@ != caller && !may_delete_any {
            r matches Err(FormError::Denied)
        } else {
            r matches Ok(Some(f)) && f == (Form { deleted: true, updated_ts: now, ..e })
        },
    }
}

/// Tombstone a form. An absent or already tombstoned form is a no-op (`Ok(None)`); the owner, or a
/// caller holding the delete-any grant, tombstones it (`Ok(Some(record))`, stamped `now`); anyone
/// else is denied.
pub fn delete_form(existing: Option<Form>, caller: &str, may_delete_any: bool, now: u64) -> (r: Result<Option<Form>, FormError>)
    ensures
        deleted_as(existing, caller@, may_delete_any, now, r),
{
    match existing {
        None => Ok(None),
        Some(f) => {
            if f.deleted {
                return Ok(None);
            }
            if !str_eq(f.owner.as_str(), caller) && !may_delete_any {
                return Err(FormError::Denied);
            }
            let mut f = f;
            f.deleted = true;
            f.updated_ts = now;
            Ok(Some(f))
        },
    }
}

/// Read a form: an absent or tombstoned form is `NotFound`.
pub fn get_form(existing: Option<Form>) -> (r: Result<Form, FormError>)
    ensures
        match existing {
            Some(f) if !f.deleted => r matches Ok(g) && g == f,
            _ => r matches Err(FormError::NotFound),
        },
{
    match existing {
        Some(f) => {
            if f.deleted {
                Err(FormError::NotFound)
            } else {
                Ok(f)
            }
        },
        None => Err(FormError::NotFound),
    }
}

/// The live forms, in order.
pub open spec fn live_forms(forms: Seq<Form>) -> Seq<Form>
    decreases forms.len(),
{
    if forms.len() == 0 {
        Seq::empty()
    } else {
        let rest = live_forms(forms.drop_last());
        if forms.last().deleted {
            rest
        } else {
            rest.push(forms.last())
        }
    }
}

/// The roster: one summary per live form, in order.
pub fn list_summaries(forms: &Vec<Form>) -> (r: Vec<FormSummary>)
    ensures
        r@.len() == live_forms(forms@).len(),
        forall|i: int| 0 <= i < r@.len() ==> (#[trigger] r@[i]).id@ == live_forms(forms@)[i].id@ && r@[i].title@ == live_forms(forms@)[i].title@ && r@[i].updated_ts == live_forms(forms@)[i].updated_ts,
{
    let mut out: Vec<FormSummary> = Vec::new();
    let mut i: usize = 0;
    while i < forms.len()
        invariant
            i <= forms@.len(),
            out@.len() == live_forms(forms@.subrange(0, i as int)).len(),
            forall|j: int| 0 <= j < out@.len() ==> (#[trigger] out@[j]).id@ == live_forms(forms@.subrange(0, i as int))[j].id@ && out@[j].title@ == live_forms(forms@.subrange(0, i as int))[j].title@ && out@[j].updated_ts == live_forms(forms@.subrange(0, i as int))[j].updated_ts,
        decreases forms@.len() - i,
    {
        let ghost pre = forms@.subrange(0, i as int);
        let ghost nxt = forms@.subrange(0, i + 1);
        assert(nxt.drop_last() =~= pre);
        assert(nxt.last() == forms@[i as int]);
        if !forms[i].deleted {
            out.push(FormSummary::from_form(&forms[i]));
        }
        i = i + 1;
    }
    assert(forms@.subrange(0, forms@.len() as int) =~= forms@);
    out
}

} // verus!
