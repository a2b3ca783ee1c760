//! Where the compositor's listening socket is bound.
//!
//! The directories and the socket names are tried one after another. The binder
//! says what to try next; what became of it is handed back.

use vstd::prelude::*;

use crate::text::number::{decimal, decimal_of};
use crate::text::ospath::{shown, shown_text};
use crate::text::paths::{absolute, is_absolute, join, joined, paths_equal, same_path};

verus! {

/// The highest number of a socket name.
pub const LAST_SOCKET: u32 = 32;

/// A directory for the socket.
#[derive(Debug, PartialEq)]
pub struct Candidate {
    pub dir: String,
    /// Whether the directory is the compositor's own, to be created for the user
    /// alone.
    pub private: bool,
}

/// A [`Candidate`] as a mathematical value.
#[verifier::ext_equal]
pub struct CandidateView {
    pub dir: Seq<char>,
    pub private: bool,
}

impl View for Candidate {
    type V = CandidateView;

    open spec fn view(&self) -> CandidateView {
        CandidateView { dir: self.dir@, private: self.private }
    }
}

/// The values of directories.
pub open spec fn candidate_views(v: Seq<Candidate>) -> Seq<CandidateView> {
    Seq::new(v.len(), |i: int| v[i]@)
}

/// The compositor's own directory for a user.
pub open spec fn fallback_dir(program: Seq<char>, temp_dir: Seq<char>, uid: u32) -> Seq<char> {
    joined(temp_dir, program + "-"@ + decimal(uid as nat))
}

/// The directories to try: the runtime directory, if it is an absolute path, then
/// the compositor's own.
pub open spec fn directories(
    program: Seq<char>,
    runtime_dir: Option<Seq<char>>,
    temp_dir: Seq<char>,
    uid: u32,
) -> Seq<CandidateView> {
    let own = fallback_dir(program, temp_dir, uid);
    (match runtime_dir {
        Some(dir) => if absolute(dir) {
            seq![CandidateView { dir, private: same_path(dir, own) }]
        } else {
            seq![]
        },
        None => seq![],
    }).push(CandidateView { dir: own, private: true })
}

/// What to try next.
#[derive(Debug, PartialEq)]
pub enum BindAction {
    /// Create the directory, for the user alone.
    Create(String),
    /// Bind a socket of a name in a directory.
    Bind { dir: String, name: String },
    /// Give up, with a message.
    Fail(String),
}

/// A [`BindAction`] as a mathematical value.
pub enum BindActionView {
    Create(Seq<char>),
    Bind { dir: Seq<char>, name: Seq<char> },
    Fail(Seq<char>),
}

impl View for BindAction {
    type V = BindActionView;

    open spec fn view(&self) -> BindActionView {
        match self {
            BindAction::Create(dir) => BindActionView::Create(dir@),
            BindAction::Bind { dir, name } => BindActionView::Bind { dir: dir@, name: name@ },
            BindAction::Fail(message) => BindActionView::Fail(message@),
        }
    }
}

/// What became of what was tried. A socket that was bound ends the search.
#[derive(Debug)]
pub enum BindResult {
    Created,
    CreateFailed(String),
    /// The socket name is in use.
    InUse,
    BindFailed(String),
}

/// A [`BindResult`] as a mathematical value.
pub enum BindResultView {
    Created,
    CreateFailed(Seq<char>),
    InUse,
    BindFailed(Seq<char>),
}

impl View for BindResult {
    type V = BindResultView;

    open spec fn view(&self) -> BindResultView {
        match self {
            BindResult::Created => BindResultView::Created,
            BindResult::CreateFailed(err) => BindResultView::CreateFailed(err@),
            BindResult::InUse => BindResultView::InUse,
            BindResult::BindFailed(err) => BindResultView::BindFailed(err@),
        }
    }
}

/// The search for a socket.
#[derive(Debug)]
pub struct Binder {
    dirs: Vec<Candidate>,
    at: usize,
    /// The number of the socket name that was tried last; 0 for none.
    number: u32,
    last_err: Option<String>,
}

/// A [`Binder`] as a mathematical value.
#[verifier::ext_equal]
pub struct BinderView {
    pub dirs: Seq<CandidateView>,
    pub at: int,
    pub number: int,
    pub last_err: Option<Seq<char>>,
}

impl View for Binder {
    type V = BinderView;

    closed spec fn view(&self) -> BinderView {
        BinderView {
            dirs: candidate_views(self.dirs@),
            at: self.at as int,
            number: self.number as int,
            last_err: match self.last_err {
                Some(e) => Some(e@),
                None => None,
            },
        }
    }
}

/// The name of a socket.
pub open spec fn socket_name(n: nat) -> Seq<char> {
    "wayland-"@ + decimal(n)
}

/// The message when no socket could be bound.
pub open spec fn failure(last_err: Option<Seq<char>>) -> Seq<char> {
    "no writable runtime directory for the wayland socket ("@ + (match last_err {
        Some(e) => e,
        None => "unknown"@,
    }) + ")"@
}

/// Begin with the directory at an index: it is created first if it is the
/// compositor's own.
pub open spec fn entered(b: BinderView, at: int) -> (BinderView, BindActionView) {
    if at >= b.dirs.len() {
        (BinderView { at, number: 0, ..b }, BindActionView::Fail(failure(b.last_err)))
    } else if b.dirs[at].private {
        (BinderView { at, number: 0, ..b }, BindActionView::Create(b.dirs[at].dir))
    } else {
        (
            BinderView { at, number: 1, ..b },
            BindActionView::Bind { dir: b.dirs[at].dir, name: socket_name(1) },
        )
    }
}

/// Go on after a result.
pub open spec fn stepped(b: BinderView, result: BindResultView) -> (BinderView, BindActionView) {
    let dir = b.dirs[b.at].dir;
    match result {
        BindResultView::Created => (
            BinderView { number: 1, ..b },
            BindActionView::Bind { dir, name: socket_name(1) },
        ),
        BindResultView::CreateFailed(err) => entered(
            BinderView { last_err: Some("create "@ + shown_text(dir) + ": "@ + err), ..b },
            b.at + 1,
        ),
        BindResultView::InUse => if b.number < LAST_SOCKET {
            (
                BinderView { number: b.number + 1, ..b },
                BindActionView::Bind { dir, name: socket_name((b.number + 1) as nat) },
            )
        } else {
            entered(b, b.at + 1)
        },
        BindResultView::BindFailed(err) => entered(
            BinderView { last_err: Some(shown_text(dir) + ": "@ + err), ..b },
            b.at + 1,
        ),
    }
}

/// A directory is being tried.
pub open spec fn trying(b: BinderView) -> bool {
    0 <= b.at < b.dirs.len() && 0 <= b.number <= LAST_SOCKET
}

/// The result is one of what was tried: a directory was created, or a socket
/// bound.
pub open spec fn fits(b: BinderView, result: BindResultView) -> bool {
    match result {
        BindResultView::Created => b.number == 0,
        BindResultView::CreateFailed(_) => b.number == 0,
        _ => b.number > 0,
    }
}

impl Binder {
    /// Begin with the directory at an index.
    fn enter(&mut self, at: usize) -> (r: BindAction)
        ensures
            (final(self)@, r@) == entered(old(self)@, at as int),
    {
        let ghost before = self@;
        self.at = at;
        self.number = 0;
        if at >= self.dirs.len() {
            let mut message = "no writable runtime directory for the wayland socket (".to_string();
            match &self.last_err {
                Some(e) => message.append(e.as_str()),
                None => message.append("unknown"),
            }
            message.append(")");
            assert(self@ =~= BinderView { at: at as int, number: 0, ..before });
            return BindAction::Fail(message);
        }
        assert(before.dirs[at as int] == self.dirs@[at as int]@);
        let dir = self.dirs[at].dir.clone();
        if self.dirs[at].private {
            assert(self@ =~= BinderView { at: at as int, number: 0, ..before });
            return BindAction::Create(dir);
        }
        self.number = 1;
        assert(self@ =~= BinderView { at: at as int, number: 1, ..before });
        BindAction::Bind { dir, name: numbered(1) }
    }

    /// Start the search of the compositor `program`, from the environment's
    /// `XDG_RUNTIME_DIR`, the directory for temporary files and the user.
    pub fn start(program: &str, runtime_dir: Option<&str>, temp_dir: &str, uid: u32) -> (r: (
        Self,
        BindAction,
    ))
        ensures
            (r.0@, r.1@) == entered(
                (BinderView {
                    dirs: directories(
                        program@,
                        match runtime_dir {
                            Some(d) => Some(d@),
                            None => None,
                        },
                        temp_dir@,
                        uid,
                    ),
                    at: 0,
                    number: 0,
                    last_err: None,
                }),
                0,
            ),
            trying(r.0@),
    {
        let mut own_name = program.to_string();
        own_name.append("-");
        own_name.append(decimal_of(uid as u64).as_str());
        let own = join(temp_dir, own_name.as_str());
        let mut dirs: Vec<Candidate> = Vec::new();
        if let Some(dir) = runtime_dir {
            if is_absolute(dir) {
                let private = paths_equal(dir, own.as_str());
                dirs.push(Candidate { dir: dir.to_string(), private });
            }
        }
        dirs.push(Candidate { dir: own, private: true });
        let ghost all = directories(
            program@,
            match runtime_dir {
                Some(d) => Some(d@),
                None => None,
            },
            temp_dir@,
            uid,
        );
        assert(candidate_views(dirs@) =~= all);
        let mut b = Binder { dirs, at: 0, number: 0, last_err: None };
        assert(b@ =~= BinderView { dirs: all, at: 0, number: 0, last_err: None });
        let action = b.enter(0);
        (b, action)
    }

    /// Go on after a result: the next name, the next directory, or the end.
    pub fn next(&mut self, result: BindResult) -> (r: BindAction)
        requires
            trying(old(self)@),
            fits(old(self)@, result@),
        ensures
            (final(self)@, r@) == stepped(old(self)@, result@),
            r is Fail || trying(final(self)@),
    {
        let ghost before = self@;
        let count = self.dirs.len();
        assert(self.at < count);
        assert(before.dirs[self.at as int] == self.dirs@[self.at as int]@);
        let dir = self.dirs[self.at].dir.clone();
        match result {
            BindResult::Created => {
                self.number = 1;
                assert(self@ =~= BinderView { number: 1, ..before });
                BindAction::Bind { dir, name: numbered(1) }
            },
            BindResult::CreateFailed(err) => {
                let mut text = "create ".to_string();
                text.append(shown(dir.as_str()).as_str());
                text.append(": ");
                text.append(err.as_str());
                self.last_err = Some(text);
                assert(self@ =~= BinderView { last_err: Some(text@), ..before });
                self.enter(self.at + 1)
            },
            BindResult::InUse => {
                if self.number < LAST_SOCKET {
                    self.number += 1;
                    assert(self@ =~= BinderView { number: before.number + 1, ..before });
                    BindAction::Bind { dir, name: numbered(self.number) }
                } else {
                    self.enter(self.at + 1)
                }
            },
            BindResult::BindFailed(err) => {
                let mut text = shown(dir.as_str());
                text.append(": ");
                text.append(err.as_str());
                self.last_err = Some(text);
                assert(self@ =~= BinderView { last_err: Some(text@), ..before });
                self.enter(self.at + 1)
            },
        }
    }
}

/// The name of a socket.
fn numbered(n: u32) -> (r: String)
    ensures
        r@ == socket_name(n as nat),
{
    let mut name = "wayland-".to_string();
    name.append(decimal_of(n as u64).as_str());
    name
}

/// How many more steps there can be.
pub open spec fn steps_left(b: BinderView) -> int {
    (b.dirs.len() - b.at) * (LAST_SOCKET + 1) - b.number
}

/// The search ends: every step leaves fewer to take, or gives up.
pub proof fn law_search_ends(b: BinderView, result: BindResultView)
    requires
        trying(b),
        fits(b, result),
    ensures
        ({
            let (after, action) = stepped(b, result);
            action is Fail || (trying(after) && 0 <= steps_left(after) < steps_left(b))
        }),
{
    let (after, action) = stepped(b, result);
    assert((b.dirs.len() - b.at) * 33 == (b.dirs.len() - b.at - 1) * 33 + 33) by (nonlinear_arith);
    assert(0 <= (b.dirs.len() - b.at - 1) * 33) by (nonlinear_arith)
        requires
            b.at < b.dirs.len(),
    ;
}

/// There is always a directory to try: the compositor's own is the last.
pub proof fn law_own_directory_is_tried_last(
    program: Seq<char>,
    runtime_dir: Option<Seq<char>>,
    temp_dir: Seq<char>,
    uid: u32,
)
    ensures
        ({
            let dirs = directories(program, runtime_dir, temp_dir, uid);
            &&& 1 <= dirs.len() <= 2
            &&& dirs.last() == CandidateView {
                dir: fallback_dir(program, temp_dir, uid),
                private: true,
            }
        }),
{
}

/// The sockets of a directory are tried from `wayland-1` to `wayland-32`: after one
/// that is in use comes the next, after the last the next directory. A directory
/// that cannot be created, or where binding fails, is given up.
pub proof fn law_sockets_are_tried_in_order(b: BinderView, result: BindResultView)
    requires
        trying(b),
        fits(b, result),
    ensures
        ({
            let (after, action) = stepped(b, result);
            let dir = b.dirs[b.at].dir;
            &&& result is Created ==> action == (BindActionView::Bind {
                dir,
                name: "wayland-"@ + decimal(1),
            }) && after.at == b.at && after.number == 1
            &&& result is InUse && b.number < 32 ==> action == (BindActionView::Bind {
                dir,
                name: "wayland-"@ + decimal((b.number + 1) as nat),
            }) && after.at == b.at && after.number == b.number + 1
            &&& (result is InUse && b.number == 32) || result is CreateFailed || result is BindFailed
                ==> (if b.at + 1 < b.dirs.len() {
                after.at == b.at + 1 && !(action is Fail)
            } else {
                action is Fail
            })
            &&& result matches BindResultView::BindFailed(err) ==> after.last_err == Some(
                shown_text(dir) + ": "@ + err,
            )
            &&& result matches BindResultView::CreateFailed(err) ==> after.last_err == Some(
                "create "@ + shown_text(dir) + ": "@ + err,
            )
            &&& result is InUse ==> after.last_err == b.last_err
        }),
{
}

/// A runtime directory is tried only if it is an absolute path, and first; the
/// compositor's own directory is the one of its name and the user below the
/// directory for temporary files.
pub proof fn law_the_runtime_directory_is_tried_first(
    program: Seq<char>,
    runtime_dir: Seq<char>,
    temp_dir: Seq<char>,
    uid: u32,
)
    ensures
        ({
            let own = joined(temp_dir, program + "-"@ + decimal(uid as nat));
            let dirs = directories(program, Some(runtime_dir), temp_dir, uid);
            &&& runtime_dir.len() > 0 && runtime_dir[0] == '/' ==> dirs.len() == 2 && dirs[0].dir
                == runtime_dir && dirs[1].dir == own && dirs[1].private
            &&& runtime_dir.len() == 0 || runtime_dir[0] != '/' ==> dirs.len() == 1 && dirs[0].dir
                == own && dirs[0].private
            &&& directories(program, None, temp_dir, uid).len() == 1
            &&& directories(program, None, temp_dir, uid)[0].dir == own
        }),
{
}

} // verus!
