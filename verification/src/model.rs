//! The example data model that rides on the store: a person record with a
//! fixed pair of names and four optional extra properties, filled one per
//! update round.

use vstd::prelude::*;
use vstd::string::StringExecFns;

verus! {

/// A person record: two names, and four optional properties that update
/// rounds fill in order.
pub struct Person {
    pub first_name: String,
    pub last_name: String,
    pub prop1: Option<String>,
    pub prop2: Option<String>,
    pub prop3: Option<String>,
    pub prop4: Option<String>,
}

/// The model of a person record.
#[verifier::ext_equal]
pub struct PersonModel {
    pub first_name: Seq<char>,
    pub last_name: Seq<char>,
    pub prop1: Option<Seq<char>>,
    pub prop2: Option<Seq<char>>,
    pub prop3: Option<Seq<char>>,
    pub prop4: Option<Seq<char>>,
}

impl View for Person {
    type V = PersonModel;

    open spec fn view(&self) -> PersonModel {
        PersonModel {
            first_name: self.first_name@,
            last_name: self.last_name@,
            prop1: match &self.prop1 {
                None => None,
                Some(v) => Some(v@),
            },
            prop2: match &self.prop2 {
                None => None,
                Some(v) => Some(v@),
            },
            prop3: match &self.prop3 {
                None => None,
                Some(v) => Some(v@),
            },
            prop4: match &self.prop4 {
                None => None,
                Some(v) => Some(v@),
            },
        }
    }
}

/// What one update round does: the first unset property receives the value
/// `{tag}_valN`; a record with all four set stays as it is.
pub open spec fn spec_next_update(p: PersonModel, tag: Seq<char>) -> PersonModel {
    if p.prop1 is None {
        PersonModel { prop1: Some(tag + seq!['_', 'v', 'a', 'l', '1']), ..p }
    } else if p.prop2 is None {
        PersonModel { prop2: Some(tag + seq!['_', 'v', 'a', 'l', '2']), ..p }
    } else if p.prop3 is None {
        PersonModel { prop3: Some(tag + seq!['_', 'v', 'a', 'l', '3']), ..p }
    } else if p.prop4 is None {
        PersonModel { prop4: Some(tag + seq!['_', 'v', 'a', 'l', '4']), ..p }
    } else {
        p
    }
}

impl Person {
    /// A fresh record with no extra properties set.
    pub fn new(first_name: String, last_name: String) -> (p: Person)
        ensures
            p@ == (PersonModel {
                first_name: first_name@,
                last_name: last_name@,
                prop1: None,
                prop2: None,
                prop3: None,
                prop4: None,
            }),
    {
        let p = Person { first_name, last_name, prop1: None, prop2: None, prop3: None, prop4: None };
        proof {
            assert(p@ =~= (PersonModel {
                first_name: p.first_name@,
                last_name: p.last_name@,
                prop1: None,
                prop2: None,
                prop3: None,
                prop4: None,
            }));
        }
        p
    }

    /// Fills the first unset property with `{tag}_valN`; a full record is
    /// left as it is.
    pub fn update_next_free(&mut self, tag: &str)
        ensures
            final(self)@ == spec_next_update(old(self)@, tag@),
    {
        if self.prop1.is_none() {
            let mut v = tag.to_owned();
            v.append("_val1");
            proof {
                reveal_strlit("_val1");
                assert(v@ =~= tag@ + seq!['_', 'v', 'a', 'l', '1']);
            }
            self.prop1 = Some(v);
            proof {
                assert(self@ =~= spec_next_update(old(self)@, tag@));
            }
        } else if self.prop2.is_none() {
            let mut v = tag.to_owned();
            v.append("_val2");
            proof {
                reveal_strlit("_val2");
                assert(v@ =~= tag@ + seq!['_', 'v', 'a', 'l', '2']);
            }
            self.prop2 = Some(v);
            proof {
                assert(self@ =~= spec_next_update(old(self)@, tag@));
            }
        } else if self.prop3.is_none() {
            let mut v = tag.to_owned();
            v.append("_val3");
            proof {
                reveal_strlit("_val3");
                assert(v@ =~= tag@ + seq!['_', 'v', 'a', 'l', '3']);
            }
            self.prop3 = Some(v);
            proof {
                assert(self@ =~= spec_next_update(old(self)@, tag@));
            }
        } else if self.prop4.is_none() {
            let mut v = tag.to_owned();
            v.append("_val4");
            proof {
                reveal_strlit("_val4");
                assert(v@ =~= tag@ + seq!['_', 'v', 'a', 'l', '4']);
            }
            self.prop4 = Some(v);
            proof {
                assert(self@ =~= spec_next_update(old(self)@, tag@));
            }
        }
    }
}

} // verus!
