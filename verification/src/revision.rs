//! The grid's history of local revisions and its revision id counter.
use vstd::prelude::*;

verus! {

/// One local change of the grid, between two revision ids: the delta of the
/// change and the md5 of the document after it.
#[derive(Debug)]
pub struct Revision {
    pub object_id: String,
    pub base_rev_id: i64,
    pub rev_id: i64,
    pub delta_data: Vec<u8>,
    pub user_id: String,
    pub md5: String,
}

impl Revision {
    /// A revision of the object, from `base_rev_id` to `rev_id`, made by the
    /// user, with the change's delta and the md5 of the document after it.
    pub fn new(
        object_id: &String,
        base_rev_id: i64,
        rev_id: i64,
        delta_data: Vec<u8>,
        user_id: &String,
        md5: String,
    ) -> (rev: Revision)
        ensures
            rev.object_id == *object_id,
            rev.base_rev_id == base_rev_id,
            rev.rev_id == rev_id,
            rev.delta_data == delta_data,
            rev.user_id == *user_id,
            rev.md5 == md5,
    {
        Revision { object_id: object_id.clone(), base_rev_id, rev_id, delta_data, user_id: user_id.clone(), md5 }
    }
}

/// The revisions of one object, with the id of the latest.
pub struct RevisionManager {
    object_id: String,
    rev_id_counter: i64,
    revisions: Vec<Revision>,
}

impl RevisionManager {
    /// The id of the object whose revisions these are.
    pub closed spec fn object_id_view(&self) -> Seq<char> {
        self.object_id@
    }

    /// The id of the latest revision.
    pub closed spec fn rev_id_view(&self) -> i64 {
        self.rev_id_counter
    }

    /// The local revisions, oldest first.
    pub closed spec fn revisions_view(&self) -> Seq<Revision> {
        self.revisions@
    }

    /// A manager of the object's revisions whose latest revision has the
    /// given id, with no local revision yet.
    pub fn new(object_id: String, rev_id: i64) -> (manager: RevisionManager)
        ensures
            manager.object_id_view() == object_id@,
            manager.rev_id_view() == rev_id,
            manager.revisions_view() == Seq::<Revision>::empty(),
    {
        RevisionManager { object_id, rev_id_counter: rev_id, revisions: Vec::new() }
    }

    /// The id of the object whose revisions these are.
    pub fn object_id(&self) -> (id: &String)
        ensures
            id@ == self.object_id_view(),
    {
        &self.object_id
    }

    /// The id of the latest revision.
    pub fn rev_id(&self) -> (id: i64)
        ensures
            id == self.rev_id_view(),
    {
        self.rev_id_counter
    }

    /// The local revisions, oldest first.
    pub fn revisions(&self) -> (revs: &Vec<Revision>)
        ensures
            revs@ == self.revisions_view(),
    {
        &self.revisions
    }

    /// The id of the latest revision and the id that the next one takes
    /// (the counter wraps at the end of the `i64` range).
    pub fn next_rev_id_pair(&self) -> (pair: (i64, i64))
        ensures
            pair.0 == self.rev_id_view(),
            pair.1 == self.rev_id_view().wrapping_add(1),
    {
        (self.rev_id_counter, self.rev_id_counter.wrapping_add(1))
    }

    /// Records a local revision; its id becomes the latest.
    pub fn add_local_revision(&mut self, revision: Revision)
        ensures
            final(self).revisions_view() == old(self).revisions_view().push(revision),
            final(self).rev_id_view() == revision.rev_id,
            final(self).object_id_view() == old(self).object_id_view(),
    {
        self.rev_id_counter = revision.rev_id;
        self.revisions.push(revision);
    }
}

} // verus!
