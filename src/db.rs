use vstd::prelude::*;

use crate::codec::{encode_questions, partition_text};
use crate::error::DQError;
use crate::question::{Question, QuestionView, views};
use crate::week::{decimal, parse_week, week_name, week_number};

verus! {

/// The directory of `user`'s partitions under the store's root.
pub open spec fn user_path(root: Seq<char>, user: Seq<char>) -> Seq<char> {
    root + seq!['/'] + user
}

/// The file of the partition of `user` and `week` under the store's root.
pub open spec fn partition_path(root: Seq<char>, user: Seq<char>, week: u8) -> Seq<char> {
    user_path(root, user) + seq!['/'] + decimal(week)
}

/// Whether an entry of a user's directory is a partition: a file whose name
/// reads as a week number.
pub open spec fn is_partition(name: Seq<char>, is_file: bool) -> bool {
    is_file && week_number(name) is Some
}

/// What reading one partition file gave.
pub enum Partition {
    /// There is no such file.
    Missing,
    /// The file could not be opened or read.
    Unreadable(std::io::Error),
    /// The file's text is not a JSON list of questions.
    Malformed(serde_json::Error),
    /// The questions the file holds, in order.
    Questions(Vec<Question>),
}

/// One item of a listing of the store's root.
pub enum Listed {
    /// Listing the directory, or reading one of its entries, failed.
    Failed(std::io::Error),
    /// An entry of the directory.
    Entry { name: String, is_dir: bool },
}

/// One item of a walk over the users' directories, in the order met.
pub enum Walked {
    /// Listing a directory, or reading one of its entries, failed.
    Failed(std::io::Error),
    /// An entry of a user's directory, with what reading it gave. An entry
    /// that is not a partition is not read, and comes as `Missing`; a
    /// partition listed but gone when read comes as `Unreadable`.
    Entry { name: String, is_file: bool, contents: Partition },
}

/// The file a write replaces, and the text that replaces it.
pub struct PartitionWrite {
    /// The user's directory, made first if absent.
    pub dir: String,
    /// The partition's file.
    pub path: String,
    /// The file's whole new text.
    pub text: String,
}

/// `s` in front of the questions of a result; an error stays as it is.
pub open spec fn prefixed(
    s: Seq<QuestionView>,
    r: Result<Seq<QuestionView>, DQError>,
) -> Result<Seq<QuestionView>, DQError> {
    match r {
        Ok(t) => Ok(s + t),
        Err(e) => Err(e),
    }
}

/// What a walk over the users' directories gives: the questions of every
/// partition in the order met, or the first failure met among the listings
/// and the partitions.
pub open spec fn walk_result(w: Seq<Walked>) -> Result<Seq<QuestionView>, DQError>
    decreases w.len(),
{
    if w.len() == 0 {
        Ok(Seq::empty())
    } else {
        match w[0] {
            Walked::Failed(e) => Err(DQError::IO(e)),
            Walked::Entry { name, is_file, contents } => {
                if !is_partition(name@, is_file) {
                    walk_result(w.drop_first())
                } else {
                    match contents {
                        Partition::Missing => walk_result(w.drop_first()),
                        Partition::Unreadable(e) => Err(DQError::IO(e)),
                        Partition::Malformed(e) => Err(DQError::Json(e)),
                        Partition::Questions(v) => prefixed(views(v@), walk_result(w.drop_first())),
                    }
                }
            },
        }
    }
}

/// `s` in front of the names of a result; an error stays as it is.
pub open spec fn names_prefixed(
    s: Seq<Seq<char>>,
    r: Result<Seq<Seq<char>>, DQError>,
) -> Result<Seq<Seq<char>>, DQError> {
    match r {
        Ok(t) => Ok(s + t),
        Err(e) => Err(e),
    }
}

/// What a listing of the root gives: the names of its directories in the
/// order listed, or the first failure.
pub open spec fn users_result(l: Seq<Listed>) -> Result<Seq<Seq<char>>, DQError>
    decreases l.len(),
{
    if l.len() == 0 {
        Ok(Seq::empty())
    } else {
        match l[0] {
            Listed::Failed(e) => Err(DQError::IO(e)),
            Listed::Entry { name, is_dir } => {
                if is_dir {
                    names_prefixed(seq![name@], users_result(l.drop_first()))
                } else {
                    users_result(l.drop_first())
                }
            },
        }
    }
}

pub open spec fn names(v: Seq<String>) -> Seq<Seq<char>> {
    v.map_values(|s: String| s@)
}

/// A store of questions under a root directory: one directory per user, and
/// in it one file per week, named by the week's number.
pub struct QuestionDB {
    path: String,
}

impl View for QuestionDB {
    type V = Seq<char>;

    /// The root directory.
    closed spec fn view(&self) -> Seq<char> {
        self.path@
    }
}

impl QuestionDB {
    /// A store rooted at `path`. The root is made on the disk by whoever
    /// holds the store, before it is first listed.
    pub fn new(path: String) -> (r: Self)
        ensures
            r@ == path@,
    {
        QuestionDB { path }
    }

    /// The root directory.
    pub fn root(&self) -> (r: &str)
        ensures
            r@ == self@,
    {
        self.path.as_str()
    }

    /// The directory of `user`'s partitions.
    pub fn user_dir(&self, user: &str) -> (r: String)
        ensures
            r@ == user_path(self@, user@),
    {
        let mut p = self.path.clone();
        p.append("/");
        p.append(user);
        proof {
            reveal_strlit("/");
        }
        assert(p@ =~= user_path(self@, user@));
        p
    }

    /// The file of the partition of `user` and `week`.
    pub fn path_buf(&self, user: &str, week: u8) -> (r: String)
        ensures
            r@ == partition_path(self@, user@, week),
    {
        let mut p = self.user_dir(user);
        p.append("/");
        let w = week_name(week);
        p.append(w.as_str());
        proof {
            reveal_strlit("/");
        }
        assert(p@ =~= partition_path(self@, user@, week));
        p
    }

    /// Whether an entry of a user's directory is a partition, to be read by
    /// a walk over the store.
    pub fn is_partition_entry(&self, name: &str, is_file: bool) -> (r: bool)
        ensures
            r == is_partition(name@, is_file),
    {
        is_file && parse_week(name).is_some()
    }

    /// The write that stores `qs` as the whole partition of `user` and
    /// `week`, replacing what it held. Every question must belong to that
    /// partition: if one does not, nothing is to be written and the error is
    /// `QuestionsDisagree`.
    pub fn set_questions(&mut self, user: &str, week: u8, qs: Vec<Question>) -> (r: Result<
        PartitionWrite,
        DQError,
    >)
        ensures
            *final(self) == *old(self),
            (r matches Err(DQError::QuestionsDisagree)) <==> exists|i: int|
                0 <= i < qs@.len() && !(#[trigger] qs@[i]).belongs_to(user@, week),
            (forall|i: int| 0 <= i < qs@.len() ==> (#[trigger] qs@[i]).belongs_to(user@, week))
                ==> r is Ok,
            r matches Ok(w) ==> {
                &&& w.dir@ == user_path(old(self)@, user@)
                &&& w.path@ == partition_path(old(self)@, user@, week)
                &&& w.text@ == partition_text(views(qs@))
            },
            r matches Err(e) ==> e is QuestionsDisagree,
    {
        let owner = String::from_str(user);
        let mut i: usize = 0;
        while i < qs.len()
            invariant
                i <= qs.len(),
                owner@ == user@,
                forall|k: int| 0 <= k < i ==> (#[trigger] qs@[k]).belongs_to(user@, week),
            decreases qs.len() - i,
        {
            if qs[i].user != owner || qs[i].week != week {
                return Err(DQError::QuestionsDisagree);
            }
            i += 1;
        }
        match encode_questions(&qs) {
            Ok(text) => Ok(PartitionWrite { dir: self.user_dir(user), path: self.path_buf(user, week), text }),
            Err(e) => Err(DQError::Json(e)),
        }
    }

    /// The questions of a partition, from what reading its file gave: none
    /// when there is no file, else those it holds, or the failure.
    pub fn get_questions(&self, found: Partition) -> (r: Result<Vec<Question>, DQError>)
        ensures
            found is Missing ==> (r matches Ok(v) && v@.len() == 0),
            found matches Partition::Questions(v) ==> r == Ok::<Vec<Question>, DQError>(v),
            found matches Partition::Unreadable(e) ==> r == Err::<Vec<Question>, DQError>(DQError::IO(e)),
            found matches Partition::Malformed(e) ==> r == Err::<Vec<Question>, DQError>(DQError::Json(e)),
    {
        match found {
            Partition::Missing => Ok(Vec::new()),
            Partition::Unreadable(e) => Err(DQError::IO(e)),
            Partition::Malformed(e) => Err(DQError::Json(e)),
            Partition::Questions(v) => Ok(v),
        }
    }
    /// The names of the users, from a listing of the root: the entries that
    /// are directories, in the order listed, or the first failure.
    pub fn get_users(&self, listing: Vec<Listed>) -> (r: Result<Vec<String>, DQError>)
        ensures
            r matches Ok(v) ==> users_result(listing@) == Ok::<Seq<Seq<char>>, DQError>(names(v@)),
            r matches Err(e) ==> users_result(listing@) == Err::<Seq<Seq<char>>, DQError>(e),
    {
        let ghost all = listing@;
        let mut rest = listing;
        let mut out: Vec<String> = Vec::new();
        assert(names(out@) =~= Seq::empty());
        assert(Seq::<Seq<char>>::empty() + users_result(rest@)->Ok_0 =~= users_result(rest@)->Ok_0);
        while rest.len() > 0
            invariant
                all == listing@,
                users_result(all) == names_prefixed(names(out@), users_result(rest@)),
            decreases rest.len(),
        {
            let ghost prev = rest@;
            let ghost before = out@;
            let item = rest.remove(0);
            assert(rest@ =~= prev.drop_first());
            match item {
                Listed::Failed(e) => {
                    return Err(DQError::IO(e));
                },
                Listed::Entry { name, is_dir } => {
                    if is_dir {
                        let ghost n = name@;
                        out.push(name);
                        assert(names(out@) =~= names(before) + seq![n]);
                        proof { if let Ok(t) = users_result(rest@) {
                            assert(names(before) + (seq![n] + t) =~= names(out@) + t);
                        } }
                    }
                },
            }
        }
        Ok(out)
    }

    /// The questions of every partition, from a walk over the users'
    /// directories: those of each partition met, in the order met, or the
    /// first failure met. Entries that are not partitions are passed over.
    pub fn get_all_questions(&self, walk: Vec<Walked>) -> (r: Result<Vec<Question>, DQError>)
        ensures
            r matches Ok(v) ==> walk_result(walk@) == Ok::<Seq<QuestionView>, DQError>(views(v@)),
            r matches Err(e) ==> walk_result(walk@) == Err::<Seq<QuestionView>, DQError>(e),
    {
        let ghost all = walk@;
        let mut rest = walk;
        let mut out: Vec<Question> = Vec::new();
        assert(views(out@) =~= Seq::empty());
        assert(Seq::<QuestionView>::empty() + walk_result(rest@)->Ok_0 =~= walk_result(rest@)->Ok_0);
        while rest.len() > 0
            invariant
                all == walk@,
                walk_result(all) == prefixed(views(out@), walk_result(rest@)),
            decreases rest.len(),
        {
            let ghost prev = rest@;
            let ghost before = out@;
            let item = rest.remove(0);
            assert(rest@ =~= prev.drop_first());
            match item {
                Walked::Failed(e) => {
                    return Err(DQError::IO(e));
                },
                Walked::Entry { name, is_file, contents } => {
                    if self.is_partition_entry(name.as_str(), is_file) {
                        match contents {
                            Partition::Missing => {},
                            Partition::Unreadable(e) => {
                                return Err(DQError::IO(e));
                            },
                            Partition::Malformed(e) => {
                                return Err(DQError::Json(e));
                            },
                            Partition::Questions(v) => {
                                let ghost found = v@;
                                let mut v = v;
                                out.append(&mut v);
                                assert(views(out@) =~= views(before) + views(found));
                                proof { if let Ok(t) = walk_result(rest@) {
                                    assert(views(before) + (views(found) + t) =~= views(out@) + t);
                                } }
                            },
                        }
                    }
                },
            }
        }
        Ok(out)
    }
}

} // verus!
