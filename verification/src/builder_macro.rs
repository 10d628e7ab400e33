//! A builder for `Person` whose `build` reports the first field not set.

use vstd::prelude::*;
use crate::text::push_str;

verus! {

pub struct Person {
    pub name: String,
    pub age: u32,
    pub email: String,
}

/// Collects the fields of a `Person` one at a time.
pub struct Builder {
    name: Option<String>,
    age: Option<u32>,
    email: Option<String>,
}

/// The view of an optional string field.
pub open spec fn opt_view(o: Option<String>) -> Option<Seq<char>> {
    match o {
        Some(s) => Some(s@),
        None => None,
    }
}

/// `Missing field: 'FIELD'`.
pub open spec fn missing(field: Seq<char>) -> Seq<char> {
    "Missing field: '"@ + field + "'"@
}

impl Builder {
    pub closed spec fn name_view(&self) -> Option<Seq<char>> {
        opt_view(self.name)
    }

    pub closed spec fn age_view(&self) -> Option<u32> {
        self.age
    }

    pub closed spec fn email_view(&self) -> Option<Seq<char>> {
        opt_view(self.email)
    }

    /// A builder with no field set.
    pub fn new() -> (b: Self)
        ensures
            b.name_view() is None,
            b.age_view() is None,
            b.email_view() is None,
    {
        Builder { name: None, age: None, email: None }
    }

    pub fn name(&mut self, value: String) -> (r: &mut Self)
        ensures
            r.name_view() == Some(value@),
            r.age_view() == old(self).age_view(),
            r.email_view() == old(self).email_view(),
            *final(self) == *final(r),
    {
        self.name = Some(value);
        self
    }

    pub fn age(&mut self, value: u32) -> (r: &mut Self)
        ensures
            r.name_view() == old(self).name_view(),
            r.age_view() == Some(value),
            r.email_view() == old(self).email_view(),
            *final(self) == *final(r),
    {
        self.age = Some(value);
        self
    }

    pub fn email(&mut self, value: String) -> (r: &mut Self)
        ensures
            r.name_view() == old(self).name_view(),
            r.age_view() == old(self).age_view(),
            r.email_view() == Some(value@),
            *final(self) == *final(r),
    {
        self.email = Some(value);
        self
    }

    /// Takes the fields out in the order name, age, email and builds the
    /// person; at the first field not set it stops with an error naming it.
    /// Every field taken before the error, and the missing one, is left
    /// unset.
    pub fn build(&mut self) -> (r: Result<Person, String>)
        ensures
            final(self).name_view() is None,
            old(self).name_view() is Some ==> final(self).age_view() is None,
            old(self).name_view() is None ==> final(self).age_view() == old(self).age_view(),
            old(self).name_view() is Some && old(self).age_view() is Some ==> final(self).email_view() is None,
            !(old(self).name_view() is Some && old(self).age_view() is Some) ==> final(self).email_view()
                == old(self).email_view(),
            match r {
                Ok(p) => old(self).name_view() == Some(p.name@) && old(self).age_view() == Some(p.age)
                    && old(self).email_view() == Some(p.email@),
                Err(e) => if old(self).name_view() is None {
                    e@ == missing("name"@)
                } else if old(self).age_view() is None {
                    e@ == missing("age"@)
                } else {
                    old(self).email_view() is None && e@ == missing("email"@)
                },
            },
    {
        let name = match self.name.take() {
            Some(v) => v,
            None => return Err(missing_field("name")),
        };
        let age = match self.age.take() {
            Some(v) => v,
            None => return Err(missing_field("age")),
        };
        let email = match self.email.take() {
            Some(v) => v,
            None => return Err(missing_field("email")),
        };
        Ok(Person { name, age, email })
    }
}

fn missing_field(field: &str) -> (s: String)
    ensures
        s@ == missing(field@),
{
    let mut s = String::new();
    push_str(&mut s, "Missing field: '");
    push_str(&mut s, field);
    push_str(&mut s, "'");
    s
}

} // verus!
