//! The metadata embedded in every entity: creation moment, last-modified
//! moment and identifier, together with the `touch` operation that advances
//! the last-modified moment.

use vstd::prelude::*;
use crate::ident::Uuid;
use crate::time::{now_timestamp, Timestamp};

verus! {

/// Identity and timestamp fields shared by every entity.  The identifier
/// and the creation moment never change after construction; the
/// last-modified moment only moves forward.
#[derive(Clone, Copy, PartialEq, Eq, Structural, Debug)]
pub struct Meta {
    pub created_on: Timestamp,
    pub last_modified: Timestamp,
    pub uuid: Uuid,
}

impl Meta {
    /// Both moments representable, and nothing modified before it was
    /// created.
    pub open spec fn wf(self) -> bool {
        &&& self.created_on.wf()
        &&& self.last_modified.wf()
        &&& self.created_on.le_spec(self.last_modified)
    }

    /// Fresh metadata: a new random identifier, created and modified at the
    /// same moment, now.
    pub fn new() -> (r: Meta)
        ensures
            r.wf(),
            r.created_on == r.last_modified,
    {
        let t = now_timestamp();
        Meta { created_on: t, last_modified: t, uuid: Uuid::fresh() }
    }

    /// Move the last-modified moment forward to `t`; a moment earlier than
    /// the current one is ignored, so the field never goes backward.
    pub fn touch_at(&mut self, t: Timestamp)
        ensures
            final(self).uuid == old(self).uuid,
            final(self).created_on == old(self).created_on,
            final(self).last_modified == old(self).last_modified.max_spec(t),
            old(self).last_modified.le_spec(final(self).last_modified),
            old(self).wf() && t.wf() ==> final(self).wf(),
    {
        self.last_modified = self.last_modified.max_with(&t);
    }

    /// Record a content mutation: advance the last-modified moment to now.
    pub fn update_modified_date(&mut self)
        ensures
            final(self).uuid == old(self).uuid,
            final(self).created_on == old(self).created_on,
            old(self).last_modified.le_spec(final(self).last_modified),
            old(self).wf() ==> final(self).wf(),
    {
        let t = now_timestamp();
        self.touch_at(t);
    }
}

impl Default for Meta {
    fn default() -> (r: Meta)
        ensures
            r.wf(),
            r.created_on == r.last_modified,
    {
        Meta::new()
    }
}

/// Rendering an entity as markdown, for consumers that display it.
pub trait Marker {
    /// The markdown form of this value.
    fn to_markdown(&self) -> String;
}

/// Everything persisted has an identifier.
pub trait Idable {
    /// The identifier, for contracts.
    spec fn uuid_spec(&self) -> Uuid;

    /// The identifier of this entity.
    fn get_uuid(&self) -> (r: Uuid)
        ensures
            r == self.uuid_spec(),
    ;
}

} // verus!
