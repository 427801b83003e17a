//! The names of users, kept once they are known.

use vstd::hash_map::StringHashMap;
use vstd::prelude::*;
use vstd::string::*;

use crate::api::{read_user_name, user_name_in};
use crate::json::read_bytes;
use crate::text::{opt_str_view, opt_view};

verus! {

/// The number of names from which on no more are kept.
pub const MAX_NAMES: usize = 10_000;

/// The names of users by their ids.
pub struct NameCache {
    names: StringHashMap<String>,
}

/// How to come by the name of a user.
#[derive(Debug)]
pub enum NameStep {
    /// The name that is kept.
    Known(String),
    /// The user has to be looked up.
    LookUp,
}

/// A [`NameStep`] as characters.
pub enum NameStepView {
    Known(Seq<char>),
    LookUp,
}

impl View for NameStep {
    type V = NameStepView;

    open spec fn view(&self) -> NameStepView {
        match *self {
            NameStep::Known(name) => NameStepView::Known(name@),
            NameStep::LookUp => NameStepView::LookUp,
        }
    }
}

/// How to come by the name of a user.
pub open spec fn name_step(names: Map<Seq<char>, Seq<char>>, id: Seq<char>) -> NameStepView {
    if names.contains_key(id) {
        NameStepView::Known(names[id])
    } else {
        NameStepView::LookUp
    }
}

/// The name of a user: the id stands in for a name that is not known.
pub open spec fn name_or_id(id: Seq<char>, name: Option<Seq<char>>) -> Seq<char> {
    match name {
        Some(n) => n,
        None => id,
    }
}

/// The names after a look-up of `id` gave `name`: only a name that was found is kept, and only
/// while there is room.
pub open spec fn after_lookup(
    names: Map<Seq<char>, Seq<char>>,
    id: Seq<char>,
    name: Option<Seq<char>>,
) -> Map<Seq<char>, Seq<char>> {
    match name {
        Some(n) => if names.len() < MAX_NAMES {
            names.insert(id, n)
        } else {
            names
        },
        None => names,
    }
}

/// The name that a reply to the request for a user gives; `None` stands for a request that was not
/// answered.
pub open spec fn name_in_reply(body: Option<&[u8]>) -> Option<Seq<char>> {
    match body {
        Some(b) => user_name_in(read_bytes(b@)),
        None => None,
    }
}

impl NameCache {
    pub closed spec fn view(&self) -> Map<Seq<char>, Seq<char>> {
        self.names@.map_values(|s: String| s@)
    }

    /// There are no more names than there is room for.
    pub open spec fn wf(&self) -> bool {
        self@.dom().finite() && self@.len() <= MAX_NAMES
    }

    /// No names.
    pub fn new() -> (r: Self)
        ensures
            r.wf(),
            r@ == Map::<Seq<char>, Seq<char>>::empty(),
    {
        let r = NameCache { names: StringHashMap::new() };
        assert(r@ =~= Map::<Seq<char>, Seq<char>>::empty());
        r
    }

    /// The name of a user, if it is known.
    pub fn get(&self, open_id: &str) -> (r: Option<&str>)
        ensures
            opt_str_view(r) == self@.get(open_id@),
    {
        match self.names.get(open_id) {
            Some(name) => Some(name.as_str()),
            None => None,
        }
    }

    /// How to come by the name of a user: a name that is kept is the answer, and only an unknown user
    /// is looked up.
    pub fn resolve_user_name(&self, open_id: &str) -> (r: NameStep)
        ensures
            r@ == name_step(self@, open_id@),
    {
        match self.get(open_id) {
            Some(name) => NameStep::Known(name.to_string()),
            None => NameStep::LookUp,
        }
    }

    /// The name of a user who was looked up: `name` is what was found. A name that was found is kept,
    /// in place of one that another look-up may have found meanwhile; the id that stands in for a
    /// name that was not found is not, so that the next look-up can find it.
    pub fn looked_up(&mut self, open_id: &str, name: Option<String>) -> (r: String)
        requires
            old(self).wf(),
        ensures
            final(self).wf(),
            final(self)@ == after_lookup(old(self)@, open_id@, opt_view(name)),
            r@ == name_or_id(open_id@, opt_view(name)),
    {
        proof {
            law_names_are_bounded(self@, open_id@, opt_view(name));
        }
        match name {
            Some(n) => {
                assert(self@.dom() =~= self.names@.dom());
                if self.names.len() < MAX_NAMES {
                    self.names.insert(open_id.to_string(), n.clone());
                    assert(self@ =~= old(self)@.insert(open_id@, n@));
                }
                n
            },
            None => open_id.to_string(),
        }
    }

    /// The name of a user who was looked up: `body` is that of the reply, if there was one.
    pub fn read_lookup(&mut self, open_id: &str, body: Option<&[u8]>) -> (r: String)
        requires
            old(self).wf(),
        ensures
            final(self).wf(),
            final(self)@ == after_lookup(old(self)@, open_id@, name_in_reply(body)),
            r@ == name_or_id(open_id@, name_in_reply(body)),
    {
        let name = match body {
            Some(b) => read_user_name(b),
            None => None,
        };
        self.looked_up(open_id, name)
    }
}

/// The name that a user is given, and the names that are kept then, where a look-up, if one is made,
/// finds `found`.
pub open spec fn resolution(
    names: Map<Seq<char>, Seq<char>>,
    id: Seq<char>,
    found: Option<Seq<char>>,
) -> (Seq<char>, Map<Seq<char>, Seq<char>>) {
    match name_step(names, id) {
        NameStepView::Known(name) => (name, names),
        NameStepView::LookUp => (name_or_id(id, found), after_lookup(names, id, found)),
    }
}

/// A name that is kept is given without a look-up, and nothing changes; an unknown user is looked up,
/// and is given the name that is found, or else the id.
pub proof fn law_kept_name_needs_no_lookup(
    names: Map<Seq<char>, Seq<char>>,
    id: Seq<char>,
    found: Option<Seq<char>>,
)
    ensures
        name_step(names, id) is LookUp <==> !names.contains_key(id),
        names.contains_key(id) ==> resolution(names, id, found) == (names[id], names),
        !names.contains_key(id) ==> resolution(names, id, found) == (
            name_or_id(id, found),
            after_lookup(names, id, found),
        ),
{
}

/// Once a name was found and kept, the user has that name, whatever later look-ups would find.
pub proof fn law_name_is_looked_up_once(
    names: Map<Seq<char>, Seq<char>>,
    id: Seq<char>,
    name: Seq<char>,
    later: Option<Seq<char>>,
)
    requires
        !names.contains_key(id),
        names.len() < MAX_NAMES,
    ensures
        resolution(names, id, Some(name)).0 == name,
        resolution(resolution(names, id, Some(name)).1, id, later).0 == name,
{
}

/// A name that was found is known from then on, while there is room.
pub proof fn law_found_name_is_known(
    names: Map<Seq<char>, Seq<char>>,
    id: Seq<char>,
    name: Seq<char>,
)
    requires
        names.len() < MAX_NAMES,
    ensures
        after_lookup(names, id, Some(name)).get(id) == Some(name),
{
}

/// A look-up that finds nothing keeps nothing: the id is still unknown if it was before.
pub proof fn law_failed_lookup_is_not_kept(names: Map<Seq<char>, Seq<char>>, id: Seq<char>)
    ensures
        after_lookup(names, id, None) == names,
        name_or_id(id, None) == id,
{
}

/// A look-up leaves the names of other users.
pub proof fn law_lookup_leaves_other_names(
    names: Map<Seq<char>, Seq<char>>,
    id: Seq<char>,
    name: Option<Seq<char>>,
    other: Seq<char>,
)
    requires
        other != id,
    ensures
        after_lookup(names, id, name).get(other) == names.get(other),
{
}

/// There are never more names than there is room for.
pub proof fn law_names_are_bounded(
    names: Map<Seq<char>, Seq<char>>,
    id: Seq<char>,
    name: Option<Seq<char>>,
)
    requires
        names.dom().finite(),
        names.len() <= MAX_NAMES,
    ensures
        after_lookup(names, id, name).len() <= MAX_NAMES,
        after_lookup(names, id, name).dom().finite(),
{
    if let Some(n) = name {
        assert(names.insert(id, n).dom() =~= names.dom().insert(id));
    }
}

/// A look-up that finds a name keeps it while fewer than 10000 names are kept, and else changes
/// nothing; whoever asked is given the name either way.
pub proof fn law_found_name_is_given_and_kept(
    names: Map<Seq<char>, Seq<char>>,
    id: Seq<char>,
    name: Seq<char>,
)
    ensures
        name_or_id(id, Some(name)) == name,
        names.len() < 10_000 ==> after_lookup(names, id, Some(name)) == names.insert(id, name),
        names.len() >= 10_000 ==> after_lookup(names, id, Some(name)) == names,
{
}

/// The name that a reply gives is the text at its place in the document that the reply is; a request
/// that was not answered gives none.
pub proof fn law_name_is_read_from_the_reply(body: &[u8])
    ensures
        name_in_reply(Some(body)) == user_name_in(read_bytes(body@)),
        name_in_reply(None) is None,
{
}

} // verus!
