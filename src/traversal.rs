use vstd::prelude::*;
use crate::classify::{is_eligible, is_image_file};
use crate::date_path::{
    copy_path, date_segments, decimal_string, destination, destination_of, local_date,
    local_date_of, year_string, CivilDate, Failure, Stamp,
};

verus! {

/// What a directory listing says an entry is. Symbolic links and other
/// special files are `Other`: never descended into, never moved.
#[derive(Clone, Copy, Debug, PartialEq, Eq, Structural)]
pub enum EntryKind {
    File,
    Directory,
    Other,
}

/// One child of a listed directory.
#[derive(Clone, Debug)]
pub struct Entry {
    pub name: String,
    pub kind: EntryKind,
    pub modified: Stamp,
}

/// What becomes of one entry, as a mathematical value.
pub enum Verdict {
    /// Not an eligible file: it stays where it is.
    Ignore,
    /// Already under the directories of its own date: it stays where it is.
    AlreadyPlaced,
    /// It moves to this path.
    Relocate(Seq<Seq<char>>),
    /// It stays where it is, for this reason.
    Skip(Failure),
}

/// What becomes of one entry. Paths are sequences of names relative to the
/// root of the traversal.
#[derive(Clone, Debug)]
pub enum Decision {
    Ignore,
    AlreadyPlaced,
    Relocate(Vec<String>),
    Skip(Failure),
}

impl View for Decision {
    type V = Verdict;

    open spec fn view(&self) -> Verdict {
        match self {
            Decision::Ignore => Verdict::Ignore,
            Decision::AlreadyPlaced => Verdict::AlreadyPlaced,
            Decision::Relocate(p) => Verdict::Relocate(p.deep_view()),
            Decision::Skip(f) => Verdict::Skip(*f),
        }
    }
}

/// A directory whose last three names are the date's own segments: a file
/// of that date found there has already been organized.
pub open spec fn already_placed(dir: Seq<Seq<char>>, date: CivilDate) -> bool {
    dir.len() >= 3 && dir.subrange(dir.len() - 3, dir.len() as int) == date_segments(date)
}

/// What becomes of an eligible file `name` of directory `dir` whose date is
/// `date`: it stays if it is already placed, else it moves to its destination.
pub open spec fn placement(dir: Seq<Seq<char>>, name: Seq<char>, date: CivilDate) -> Verdict {
    if already_placed(dir, date) {
        Verdict::AlreadyPlaced
    } else {
        Verdict::Relocate(destination_of(dir, date, name))
    }
}

/// What becomes of a non-directory entry `name` of directory `dir`.
pub open spec fn verdict_of(
    dir: Seq<Seq<char>>,
    name: Seq<char>,
    kind: EntryKind,
    stamp: Stamp,
    offset: int,
) -> Verdict {
    if kind != EntryKind::File || !is_eligible(name) {
        Verdict::Ignore
    } else {
        match local_date_of(stamp, offset) {
            Err(f) => Verdict::Skip(f),
            Ok(date) => placement(dir, name, date),
        }
    }
}

/// The records that listing `entries` of directory `dir` adds to a plan: one
/// for each entry that is not a directory, in listing order.
pub open spec fn plans_of(dir: Seq<Seq<char>>, entries: Seq<Entry>, offset: int) -> Seq<
    (Seq<Seq<char>>, Verdict),
>
    decreases entries.len(),
{
    if entries.len() == 0 {
        seq![]
    } else {
        let prev = plans_of(dir, entries.drop_last(), offset);
        let e = entries.last();
        if e.kind == EntryKind::Directory {
            prev
        } else {
            prev.push((dir.push(e.name@), verdict_of(dir, e.name@, e.kind, e.modified, offset)))
        }
    }
}

/// The subdirectories of `dir` that a traversal goes on to list: those among
/// `entries`, in listing order, when it is recursive; none otherwise.
pub open spec fn subdirs_of(dir: Seq<Seq<char>>, entries: Seq<Entry>, recursive: bool) -> Seq<
    Seq<Seq<char>>,
>
    decreases entries.len(),
{
    if entries.len() == 0 || !recursive {
        seq![]
    } else {
        let prev = subdirs_of(dir, entries.drop_last(), recursive);
        let e = entries.last();
        if e.kind == EntryKind::Directory {
            prev.push(dir.push(e.name@))
        } else {
            prev
        }
    }
}

fn is_already_placed(dir: &Vec<String>, date: CivilDate) -> (r: bool)
    ensures
        r == already_placed(dir.deep_view(), date),
{
    let n = dir.len();
    if n < 3 {
        return false;
    }
    let same = dir[n - 3] == year_string(date.year) && dir[n - 2] == decimal_string(date.month)
        && dir[n - 1] == decimal_string(date.day);
    proof {
        let v = dir.deep_view();
        let tail = v.subrange(n - 3, n as int);
        if same {
            assert(tail =~= date_segments(date));
        } else {
            if tail == date_segments(date) {
                assert(tail[0] == v[n - 3]);
                assert(tail[1] == v[n - 2]);
                assert(tail[2] == v[n - 1]);
            }
        }
    }
    same
}

/// Places an eligible file `name` of directory `dir` whose date is `date`.
pub fn place(dir: &Vec<String>, name: &str, date: CivilDate) -> (r: Decision)
    ensures
        r@ == placement(dir.deep_view(), name@, date),
{
    if is_already_placed(dir, date) {
        Decision::AlreadyPlaced
    } else {
        Decision::Relocate(destination(dir, date, name))
    }
}

/// Classifies one non-directory entry of `dir` and, when it is eligible,
/// resolves where it goes.
pub fn decide(dir: &Vec<String>, entry: &Entry, offset_secs: i32) -> (r: Decision)
    ensures
        r@ == verdict_of(dir.deep_view(), entry.name@, entry.kind, entry.modified, offset_secs as int),
{
    let is_file = match entry.kind {
        EntryKind::File => true,
        _ => false,
    };
    if !is_file || !is_image_file(entry.name.as_str()) {
        return Decision::Ignore;
    }
    match local_date(entry.modified, offset_secs) {
        Err(f) => Decision::Skip(f),
        Ok(date) => place(dir, entry.name.as_str(), date),
    }
}

/// One record of a plan: an entry's path and what becomes of it.
#[derive(Clone, Debug)]
pub struct Planned {
    pub from: Vec<String>,
    pub decision: Decision,
}

impl View for Planned {
    type V = (Seq<Seq<char>>, Verdict);

    open spec fn view(&self) -> (Seq<Seq<char>>, Verdict) {
        (self.from.deep_view(), self.decision@)
    }
}

fn child_path(dir: &Vec<String>, name: &String) -> (r: Vec<String>)
    ensures
        r.deep_view() == dir.deep_view().push(name@),
{
    let mut r = copy_path(dir);
    r.push(String::from_str(name.as_str()));
    proof {
        assert(r.deep_view() =~= dir.deep_view().push(name@));
    }
    r
}


/// Every non-directory entry of a listing gets its own record in the plan:
/// its path, and the verdict computed from that entry alone.
pub proof fn lemma_every_entry_recorded(dir: Seq<Seq<char>>, entries: Seq<Entry>, offset: int, i: int)
    requires
        0 <= i < entries.len(),
        entries[i].kind != EntryKind::Directory,
    ensures
        plans_of(dir, entries, offset).contains(
            (
                dir.push(entries[i].name@),
                verdict_of(dir, entries[i].name@, entries[i].kind, entries[i].modified, offset),
            ),
        ),
    decreases entries.len(),
{
    let plans = plans_of(dir, entries, offset);
    let rec = (
        dir.push(entries[i].name@),
        verdict_of(dir, entries[i].name@, entries[i].kind, entries[i].modified, offset),
    );
    if i == entries.len() - 1 {
        assert(plans.last() == rec);
    } else {
        lemma_every_entry_recorded(dir, entries.drop_last(), offset, i);
        let prev = plans_of(dir, entries.drop_last(), offset);
        let k = choose|k: int| 0 <= k < prev.len() && prev[k] == rec;
        assert(plans[k] == rec);
    }
}

/// A plan only ever relocates an eligible file, and keeps its name.
pub proof fn lemma_only_eligible_relocated(dir: Seq<Seq<char>>, entries: Seq<Entry>, offset: int)
    ensures
        forall|k: int|
            0 <= k < plans_of(dir, entries, offset).len() && (#[trigger] plans_of(
                dir,
                entries,
                offset,
            )[k]).1 is Relocate ==> {
                let (from, v) = plans_of(dir, entries, offset)[k];
                &&& from.len() > 0
                &&& is_eligible(from.last())
                &&& v->Relocate_0.len() > 0
                &&& v->Relocate_0.last() == from.last()
            },
    decreases entries.len(),
{
    if entries.len() > 0 {
        lemma_only_eligible_relocated(dir, entries.drop_last(), offset);
    }
}

/// After a pass over the root (the empty path), a file with a recognized
/// extension and a modification time that has a date is planned to move to
/// `year/month/day/name` under the root, and so away from where it was.
pub proof fn lemma_root_pass_relocates(entries: Seq<Entry>, offset: int, i: int, date: CivilDate)
    requires
        0 <= i < entries.len(),
        entries[i].kind == EntryKind::File,
        is_eligible(entries[i].name@),
        local_date_of(entries[i].modified, offset) == Ok::<CivilDate, Failure>(date),
    ensures
        plans_of(Seq::empty(), entries, offset).contains(
            (
                seq![entries[i].name@],
                Verdict::Relocate(date_segments(date).push(entries[i].name@)),
            ),
        ),
{
    let root = Seq::<Seq<char>>::empty();
    lemma_every_entry_recorded(root, entries, offset, i);
    assert(root.push(entries[i].name@) =~= seq![entries[i].name@]);
    assert(destination_of(root, date, entries[i].name@) =~= date_segments(date).push(
        entries[i].name@,
    ));
}

/// A file whose extension is not recognized stays where it is: its record
/// says so, and no record of the plan relocates a file of its name.
pub proof fn lemma_unrecognized_left_in_place(
    dir: Seq<Seq<char>>,
    entries: Seq<Entry>,
    offset: int,
    i: int,
)
    requires
        0 <= i < entries.len(),
        entries[i].kind != EntryKind::Directory,
        !is_eligible(entries[i].name@),
    ensures
        plans_of(dir, entries, offset).contains((dir.push(entries[i].name@), Verdict::Ignore)),
        forall|k: int|
            0 <= k < plans_of(dir, entries, offset).len() && (#[trigger] plans_of(
                dir,
                entries,
                offset,
            )[k]).0.last() == entries[i].name@ ==> !(plans_of(dir, entries, offset)[k].1 is Relocate),
{
    lemma_every_entry_recorded(dir, entries, offset, i);
    lemma_only_eligible_relocated(dir, entries, offset);
}

/// A relocated file, found again at its destination with the same name and
/// modification time, is left there: a second pass does not move it again.
pub proof fn lemma_organized_file_stays(
    dir: Seq<Seq<char>>,
    name: Seq<char>,
    stamp: Stamp,
    offset: int,
    to: Seq<Seq<char>>,
)
    requires
        verdict_of(dir, name, EntryKind::File, stamp, offset) == Verdict::Relocate(to),
    ensures
        to == to.drop_last().push(name),
        verdict_of(to.drop_last(), name, EntryKind::File, stamp, offset) == Verdict::AlreadyPlaced,
{
    let date = local_date_of(stamp, offset)->Ok_0;
    let parent = to.drop_last();
    assert(parent =~= dir + date_segments(date));
    assert(parent.subrange(parent.len() - 3, parent.len() as int) =~= date_segments(date));
    assert(to =~= parent.push(name));
}

/// Two files of one directory that resolve to the same date share one
/// destination directory.
pub proof fn lemma_shared_destination_dir(
    dir: Seq<Seq<char>>,
    a: Seq<char>,
    b: Seq<char>,
    stamp_a: Stamp,
    stamp_b: Stamp,
    offset: int,
    to_a: Seq<Seq<char>>,
    to_b: Seq<Seq<char>>,
)
    requires
        verdict_of(dir, a, EntryKind::File, stamp_a, offset) == Verdict::Relocate(to_a),
        verdict_of(dir, b, EntryKind::File, stamp_b, offset) == Verdict::Relocate(to_b),
        local_date_of(stamp_a, offset) == local_date_of(stamp_b, offset),
    ensures
        to_a.drop_last() == to_b.drop_last(),
{
    let date = local_date_of(stamp_a, offset)->Ok_0;
    assert(to_a.drop_last() =~= dir + date_segments(date));
    assert(to_b.drop_last() =~= dir + date_segments(date));
}

/// An eligible file whose modification time cannot be read is left in place
/// with a `MetadataUnavailable` record, and every other entry of the listing
/// still gets its own record.
pub proof fn lemma_unreadable_time_skipped(
    dir: Seq<Seq<char>>,
    entries: Seq<Entry>,
    offset: int,
    i: int,
)
    requires
        0 <= i < entries.len(),
        entries[i].kind == EntryKind::File,
        is_eligible(entries[i].name@),
        entries[i].modified == Stamp::Unreadable,
    ensures
        plans_of(dir, entries, offset).contains(
            (dir.push(entries[i].name@), Verdict::Skip(Failure::MetadataUnavailable)),
        ),
        forall|j: int|
            0 <= j < entries.len() && (#[trigger] entries[j]).kind != EntryKind::Directory
                ==> plans_of(dir, entries, offset).contains(
                (
                    dir.push(entries[j].name@),
                    verdict_of(dir, entries[j].name@, entries[j].kind, entries[j].modified, offset),
                ),
            ),
{
    lemma_every_entry_recorded(dir, entries, offset, i);
    assert forall|j: int|
        0 <= j < entries.len() && (#[trigger] entries[j]).kind != EntryKind::Directory
            implies plans_of(dir, entries, offset).contains(
            (
                dir.push(entries[j].name@),
                verdict_of(dir, entries[j].name@, entries[j].kind, entries[j].modified, offset),
            ),
        ) by {
        lemma_every_entry_recorded(dir, entries, offset, j);
    }
}

/// A two-phase walk of a directory tree. The caller lists the directory that
/// `next_directory` names and hands the listing to `directory_listed`, until
/// nothing is pending; only then does it carry out the plan. Since every
/// listing is taken before anything moves, a destination directory made by
/// this walk is never listed by it.
pub struct Traversal {
    pending: Vec<Vec<String>>,
    planned: Vec<Planned>,
    recursive: bool,
    offset_secs: i32,
}

impl Traversal {
    /// Directories still to be listed; the last one is listed next.
    pub closed spec fn pending(&self) -> Seq<Seq<Seq<char>>> {
        self.pending.deep_view()
    }

    /// The plan so far: one record per entry decided, in order.
    pub closed spec fn planned(&self) -> Seq<(Seq<Seq<char>>, Verdict)> {
        self.planned@.map_values(|p: Planned| p@)
    }

    pub closed spec fn recursive(&self) -> bool {
        self.recursive
    }

    pub closed spec fn offset(&self) -> int {
        self.offset_secs as int
    }

    /// Starts a walk at the root (the empty path). Dates are taken in the
    /// time zone `offset_secs` seconds ahead of UTC.
    pub fn new(recursive: bool, offset_secs: i32) -> (r: Traversal)
        ensures
            r.pending() == seq![Seq::<Seq<char>>::empty()],
            r.planned() == Seq::<(Seq<Seq<char>>, Verdict)>::empty(),
            r.recursive() == recursive,
            r.offset() == offset_secs as int,
    {
        let mut pending: Vec<Vec<String>> = Vec::new();
        let root: Vec<String> = Vec::new();
        proof {
            assert(root.deep_view() =~= Seq::<Seq<char>>::empty());
        }
        pending.push(root);
        let r = Traversal { pending, planned: Vec::new(), recursive, offset_secs };
        proof {
            assert(r.pending()[0] == root.deep_view());
            assert(r.pending() =~= seq![Seq::<Seq<char>>::empty()]);
            assert(r.planned() =~= Seq::<(Seq<Seq<char>>, Verdict)>::empty());
        }
        r
    }

    /// Whether every directory has been listed.
    pub fn is_done(&self) -> (r: bool)
        ensures
            r == (self.pending().len() == 0),
    {
        self.pending.len() == 0
    }

    /// The directory to list next, if any.
    pub fn next_directory(&self) -> (r: Option<Vec<String>>)
        ensures
            self.pending().len() == 0 ==> r is None,
            self.pending().len() > 0 ==> (r matches Some(d) && d.deep_view() == self.pending().last()),
    {
        let n = self.pending.len();
        if n == 0 {
            None
        } else {
            let d = copy_path(&self.pending[n - 1]);
            Some(d)
        }
    }

    /// The plan: every record made so far.
    pub fn plan(&self) -> (r: &Vec<Planned>)
        ensures
            r@.map_values(|p: Planned| p@) == self.planned(),
    {
        &self.planned
    }

    /// Takes the listing of the directory that `next_directory` names: its
    /// entries, or `Err` when it could not be read. Subdirectories join the
    /// pending ones when the walk is recursive; every other entry gets its
    /// record in the plan. A directory that could not be read gets a
    /// `DirectoryReadFailure` record, and the walk goes on with the rest.
    pub fn directory_listed(&mut self, listing: Result<Vec<Entry>, ()>)
        ensures
            final(self).recursive() == old(self).recursive(),
            final(self).offset() == old(self).offset(),
            old(self).pending().len() == 0 ==> final(self).pending() == old(self).pending()
                && final(self).planned() == old(self).planned(),
            old(self).pending().len() > 0 ==> ({
                let dir = old(self).pending().last();
                match listing {
                    Ok(es) => final(self).pending() == old(self).pending().drop_last() + subdirs_of(
                        dir,
                        es@,
                        old(self).recursive(),
                    ) && final(self).planned() == old(self).planned() + plans_of(
                        dir,
                        es@,
                        old(self).offset(),
                    ),
                    Err(_) => final(self).pending() == old(self).pending().drop_last()
                        && final(self).planned() == old(self).planned().push(
                        (dir, Verdict::Skip(Failure::DirectoryReadFailure)),
                    ),
                }
            }),
    {
        let dir = match self.pending.pop() {
            Some(d) => d,
            None => {
                return ;
            },
        };
        proof {
            assert(self.pending() =~= old(self).pending().drop_last());
        }
        match listing {
            Err(_) => {
                let ghost before = self.planned();
                self.planned.push(
                    Planned { from: dir, decision: Decision::Skip(Failure::DirectoryReadFailure) },
                );
                proof {
                    assert(self.planned() =~= before.push(
                        (old(self).pending().last(), Verdict::Skip(Failure::DirectoryReadFailure)),
                    ));
                }
            },
            Ok(entries) => {
                let ghost pending0 = self.pending();
                let ghost planned0 = self.planned();
                let mut i: usize = 0;
                while i < entries.len()
                    invariant
                        i <= entries.len(),
                        dir.deep_view() == old(self).pending().last(),
                        self.recursive == old(self).recursive,
                        self.offset_secs == old(self).offset_secs,
                        self.pending() == pending0 + subdirs_of(
                            dir.deep_view(),
                            entries@.subrange(0, i as int),
                            self.recursive,
                        ),
                        self.planned() == planned0 + plans_of(
                            dir.deep_view(),
                            entries@.subrange(0, i as int),
                            self.offset_secs as int,
                        ),
                    decreases entries.len() - i,
                {
                    let e = &entries[i];
                    let ghost pre = entries@.subrange(0, i as int);
                    let ghost next = entries@.subrange(0, i + 1);
                    assert(next.drop_last() =~= pre);
                    assert(next.last() == *e);
                    let ghost pending1 = self.pending();
                    let ghost planned1 = self.planned();
                    match e.kind {
                        EntryKind::Directory => {
                            if self.recursive {
                                self.pending.push(child_path(&dir, &e.name));
                                proof {
                                    assert(self.pending() =~= pending1.push(
                                        dir.deep_view().push(e.name@),
                                    ));
                                }
                            }
                        },
                        _ => {
                            let decision = decide(&dir, e, self.offset_secs);
                            self.planned.push(Planned { from: child_path(&dir, &e.name), decision });
                            proof {
                                assert(self.planned() =~= planned1.push(
                                    (
                                        dir.deep_view().push(e.name@),
                                        verdict_of(
                                            dir.deep_view(),
                                            e.name@,
                                            e.kind,
                                            e.modified,
                                            self.offset_secs as int,
                                        ),
                                    ),
                                ));
                            }
                        },
                    }
                    i = i + 1;
                }
                proof {
                    assert(entries@.subrange(0, entries@.len() as int) =~= entries@);
                }
            },
        }
    }
}

} // verus!
