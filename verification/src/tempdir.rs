//! A temporary directory with a random name.

use crate::paths::{copy_bytes, join_path, joined};
use rand::RngExt;
use vstd::prelude::*;

verus! {

/// How many names are tried.
pub const ATTEMPTS: usize = 10;

/// The number of random characters in a name.
pub const SUFFIX_LENGTH: usize = 12;

/// What is said when all names that were tried exist.
pub const TOO_MANY: &'static str = "too many temporary directories already exist";

/// Whether a byte is an ASCII letter or digit.
pub open spec fn is_alphanumeric(b: u8) -> bool {
    (48 <= b && b <= 57) || (65 <= b && b <= 90) || (97 <= b && b <= 122)
}

/// Whether the bytes can be the random part of a name.
pub open spec fn is_suffix(suffix: Seq<u8>) -> bool {
    &&& suffix.len() == SUFFIX_LENGTH
    &&& forall|i: int| 0 <= i < suffix.len() ==> is_alphanumeric(#[trigger] suffix[i])
}

/// Samples `rand::distr::Alphanumeric` from `rand::rng()`. Every sample is an ASCII letter or
/// digit; which one it is depends on chance.
#[verifier::external_body]
fn random_alphanumeric() -> (res: u8)
    ensures
        is_alphanumeric(res),
{
    rand::rng().sample(rand::distr::Alphanumeric)
}

/// The random part of a name.
fn random_suffix() -> (res: Vec<u8>)
    ensures
        is_suffix(res@),
{
    let mut out: Vec<u8> = Vec::new();
    for i in 0..SUFFIX_LENGTH
        invariant
            out@.len() == i,
            forall|j: int| 0 <= j < out@.len() ==> is_alphanumeric(#[trigger] out@[j]),
    {
        out.push(random_alphanumeric());
    }
    out
}

/// A temporary directory.
#[derive(Debug)]
pub struct TempDir {
    path: Vec<u8>,
}

impl View for TempDir {
    type V = Seq<u8>;

    closed spec fn view(&self) -> Seq<u8> {
        self.path@
    }
}

impl TempDir {
    /// The path of the directory.
    pub fn path(&self) -> (res: &Vec<u8>)
        ensures
            res@ == self@,
    {
        &self.path
    }

    /// Give the directory up. The result is the path that is to be removed.
    pub fn close(self) -> (res: Vec<u8>)
        ensures
            res@ == self@,
    {
        self.path
    }
}

/// The outcome of creating a directory. An error comes with its text.
#[derive(Debug)]
pub enum Made {
    Created,
    AlreadyExists,
    Failed(String),
}

/// What is to be done after an attempt.
#[derive(Debug)]
pub enum Next {
    /// The directory is there.
    Ready(TempDir),
    /// Try another name.
    Again(Creation),
    /// Give up with this error.
    Failed(String),
    /// Give up: too many directories exist.
    Exhausted,
}

/// What is to be done after an attempt.
pub enum NextView {
    Ready(Seq<u8>),
    Again(CreationView),
    Failed(Seq<char>),
    Exhausted,
}

impl View for Next {
    type V = NextView;

    open spec fn view(&self) -> NextView {
        match self {
            Next::Ready(dir) => NextView::Ready(dir@),
            Next::Again(creation) => NextView::Again(creation@),
            Next::Failed(msg) => NextView::Failed(msg@),
            Next::Exhausted => NextView::Exhausted,
        }
    }
}

/// The creation of a temporary directory.
#[derive(Debug)]
pub struct Creation {
    tmp_dir: Vec<u8>,
    prefix: Vec<u8>,
    attempts: usize,
}

/// Where the directory is created, how its name starts, and how many names are left to try.
pub struct CreationView {
    pub tmp_dir: Seq<u8>,
    pub prefix: Seq<u8>,
    pub attempts: nat,
}

impl View for Creation {
    type V = CreationView;

    closed spec fn view(&self) -> CreationView {
        CreationView {
            tmp_dir: self.tmp_dir@,
            prefix: self.prefix@,
            attempts: self.attempts as nat,
        }
    }
}

impl CreationView {
    /// Before the first attempt.
    pub open spec fn start(tmp_dir: Seq<u8>, prefix: Seq<u8>) -> CreationView {
        CreationView { tmp_dir, prefix, attempts: ATTEMPTS as nat }
    }

    /// The path with the given random part.
    pub open spec fn path(self, suffix: Seq<u8>) -> Seq<u8> {
        joined(self.tmp_dir, self.prefix + suffix)
    }

    /// What is to be done after an attempt to create `path`.
    pub open spec fn next(self, path: Seq<u8>, made: Made) -> NextView {
        match made {
            Made::Created => NextView::Ready(path),
            Made::AlreadyExists => if self.attempts <= 1 {
                NextView::Exhausted
            } else {
                NextView::Again(CreationView { attempts: (self.attempts - 1) as nat, ..self })
            },
            Made::Failed(msg) => NextView::Failed(msg@),
        }
    }
}

impl Creation {
    /// Some name is left to try.
    #[verifier::type_invariant]
    spec fn has_attempt(self) -> bool {
        self.attempts > 0
    }

    /// The creation of a directory below `tmp_dir`, with a name that starts with `prefix`.
    pub fn new(tmp_dir: Vec<u8>, prefix: Vec<u8>) -> (res: Self)
        ensures
            res@ == CreationView::start(tmp_dir@, prefix@),
            res@.tmp_dir == tmp_dir@,
            res@.prefix == prefix@,
            res@.attempts == 10,
    {
        Creation { tmp_dir, prefix, attempts: ATTEMPTS }
    }

    /// The path that is to be tried next, with a random part that depends on chance.
    pub fn candidate(&self) -> (res: Vec<u8>)
        ensures
            exists|suffix: Seq<u8>| is_suffix(suffix) && res@ == #[trigger] self@.path(suffix),
    {
        let suffix = random_suffix();
        self.candidate_with(suffix.as_slice())
    }

    /// The path with the given random part.
    pub fn candidate_with(&self, suffix: &[u8]) -> (res: Vec<u8>)
        ensures
            res@ == self@.path(suffix@),
    {
        let mut name = copy_bytes(self.prefix.as_slice());
        let mut rest = copy_bytes(suffix);
        name.append(&mut rest);
        join_path(self.tmp_dir.as_slice(), name.as_slice())
    }

    /// Decide what to do after an attempt to create `path`.
    pub fn note(self, path: Vec<u8>, made: Made) -> (res: Next)
        ensures
            res@ == self@.next(path@, made),
    {
        proof {
            use_type_invariant(&self);
        }
        match made {
            Made::Created => Next::Ready(TempDir { path }),
            Made::AlreadyExists => if self.attempts <= 1 {
                Next::Exhausted
            } else {
                Next::Again(
                    Creation {
                        tmp_dir: self.tmp_dir,
                        prefix: self.prefix,
                        attempts: self.attempts - 1,
                    },
                )
            },
            Made::Failed(msg) => Next::Failed(msg),
        }
    }
}

/// The state after the given number of attempts at names that existed, or `None` if there is no
/// further attempt.
pub open spec fn after_collisions(creation: CreationView, paths: Seq<Seq<u8>>) -> Option<CreationView>
    decreases paths.len(),
{
    if paths.len() == 0 {
        Some(creation)
    } else {
        match after_collisions(creation, paths.drop_last()) {
            Some(c) => match c.next(paths.last(), Made::AlreadyExists) {
                NextView::Again(next) => Some(next),
                _ => None,
            },
            None => None,
        }
    }
}

/// As many names as there are attempts are tried, and no more. The name of every attempt is made
/// in the same place, with the same prefix.
pub proof fn law_attempts_are_bounded(
    tmp_dir: Seq<u8>,
    prefix: Seq<u8>,
    paths: Seq<Seq<u8>>,
)
    ensures
        after_collisions(CreationView::start(tmp_dir, prefix), paths) is Some <==> paths.len()
            < ATTEMPTS,
        after_collisions(CreationView::start(tmp_dir, prefix), paths) matches Some(c) ==> c.tmp_dir
            == tmp_dir && c.prefix == prefix && c.attempts == ATTEMPTS - paths.len(),
    decreases paths.len(),
{
    if paths.len() > 0 {
        law_attempts_are_bounded(tmp_dir, prefix, paths.drop_last());
    }
}

/// The random part of a name is twelve ASCII letters and digits.
pub proof fn law_suffix_is_twelve_letters_and_digits(suffix: Seq<u8>)
    ensures
        is_suffix(suffix) <==> suffix.len() == 12 && forall|i: int|
            0 <= i < suffix.len() ==> (48 <= #[trigger] suffix[i] <= 57) || (65 <= suffix[i] <= 90)
                || (97 <= suffix[i] <= 122),
{
    if is_suffix(suffix) {
        assert forall|i: int| 0 <= i < suffix.len() implies (48 <= #[trigger] suffix[i] <= 57) || (65
            <= suffix[i] <= 90) || (97 <= suffix[i] <= 122) by {
            assert(is_alphanumeric(suffix[i]));
        }
    }
}

/// A directory lies in the directory for temporary files, and its name is the prefix and then the
/// random part.
pub proof fn law_path_is_made_of_prefix_and_suffix(creation: CreationView, suffix: Seq<u8>)
    ensures
        creation.path(suffix) == joined(creation.tmp_dir, creation.prefix + suffix),
{
}

/// A directory that was created is the one that was tried. A name that exists costs one attempt, and
/// the last attempt ends the creation. Any other error ends it at once, with its message.
pub proof fn law_attempt_decides(creation: CreationView, path: Seq<u8>, msg: String)
    ensures
        creation.next(path, Made::Created) == NextView::Ready(path),
        creation.next(path, Made::Failed(msg)) == NextView::Failed(msg@),
        creation.attempts <= 1 ==> creation.next(path, Made::AlreadyExists) is Exhausted,
        creation.attempts > 1 ==> creation.next(path, Made::AlreadyExists) == NextView::Again(
            CreationView {
                tmp_dir: creation.tmp_dir,
                prefix: creation.prefix,
                attempts: (creation.attempts - 1) as nat,
            },
        ),
{
}

/// What is to be done next is seen as it is.
pub proof fn law_next_is_seen_as_it_is(dir: TempDir, creation: Creation, msg: String)
    ensures
        Next::Ready(dir)@ == NextView::Ready(dir@),
        Next::Again(creation)@ == NextView::Again(creation@),
        Next::Failed(msg)@ == NextView::Failed(msg@),
        Next::Exhausted@ is Exhausted,
{
}

} // verus!
