use crate::search::{chars_of, occurs_at, occurs_at_exec, tag_of, Category, SearchQuery};
use vstd::prelude::*;

verus! {

/// Lifecycle of one client connection.
#[derive(Clone, Copy, PartialEq, Eq, Debug, Structural)]
pub enum SessionState {
    Connecting,
    Active,
    Closing,
    Closed,
}

/// A request failure that is reported to the client in an error frame; the
/// connection stays open.
#[derive(Clone, Copy, PartialEq, Eq, Debug, Structural)]
pub enum SessionError {
    MalformedRequest,
}

/// The keyword that starts every inbound request.
pub open spec fn search_word() -> Seq<char> {
    seq!['s', 'e', 'a', 'r', 'c', 'h']
}

/// `p` followed by a space occurs in `raw` at position `at`.
pub open spec fn word_at(raw: Seq<char>, p: Seq<char>, at: int) -> bool {
    occurs_at(raw, p.push(' '), at)
}

/// Which category tag, followed by a space, starts `raw` at `at`.
pub open spec fn category_at(raw: Seq<char>, at: int) -> Option<Category> {
    if word_at(raw, tag_of(Category::Leetcode), at) {
        Some(Category::Leetcode)
    } else if word_at(raw, tag_of(Category::AdventOfCode), at) {
        Some(Category::AdventOfCode)
    } else if word_at(raw, tag_of(Category::Google), at) {
        Some(Category::Google)
    } else {
        None
    }
}

/// How an inbound frame reads: `search <text>` asks over every category,
/// `search/<tag> <text>` over the category with that tag. The result is the
/// category filter and the position where the text starts; anything else is
/// malformed.
pub open spec fn parse_request(raw: Seq<char>) -> Option<(Option<Category>, int)> {
    if word_at(raw, search_word(), 0) {
        Some((None, 7))
    } else if occurs_at(raw, search_word().push('/'), 0) {
        match category_at(raw, 7) {
            Some(c) => Some((Some(c), 8 + tag_of(c).len() as int)),
            None => None,
        }
    } else {
        None
    }
}

fn word_at_exec(raw: &Vec<char>, word: Vec<char>, at: usize) -> (r: bool)
    ensures
        r == word_at(raw@, word@, at as int),
{
    let mut w = word;
    w.push(' ');
    occurs_at_exec(raw, &w, at)
}

fn category_at_exec(raw: &Vec<char>, at: usize) -> (r: Option<Category>)
    ensures
        r == category_at(raw@, at as int),
{
    if word_at_exec(raw, Category::Leetcode.tag(), at) {
        Some(Category::Leetcode)
    } else if word_at_exec(raw, Category::AdventOfCode.tag(), at) {
        Some(Category::AdventOfCode)
    } else if word_at_exec(raw, Category::Google.tag(), at) {
        Some(Category::Google)
    } else {
        None
    }
}

/// Turns an inbound frame of the session `session` into a query, or fails
/// with `MalformedRequest`.
pub fn parse_query(session: u64, raw: &String) -> (r: Result<SearchQuery, SessionError>)
    ensures
        match parse_request(raw@) {
            Some((category, start)) => r matches Ok(q) && is_query(q, session, category, raw@.skip(start)),
            None => r == Err::<SearchQuery, SessionError>(SessionError::MalformedRequest),
        },
{
    let chars = chars_of(raw);
    let word = vec!['s', 'e', 'a', 'r', 'c', 'h'];
    let mut slash = vec!['s', 'e', 'a', 'r', 'c', 'h'];
    slash.push('/');
    let (category, start): (Option<Category>, usize) = if word_at_exec(&chars, word, 0) {
        (None, 7)
    } else if occurs_at_exec(&chars, &slash, 0) {
        match category_at_exec(&chars, 7) {
            Some(c) => {
                let tag = c.tag();
                (Some(c), 8 + tag.len())
            },
            None => {
                return Err(SessionError::MalformedRequest);
            },
        }
    } else {
        return Err(SessionError::MalformedRequest);
    };
    let n = raw.as_str().unicode_len();
    let text = raw.as_str().substring_char(start, n).to_owned();
    assert(text@ =~= raw@.skip(start as int));
    Ok(SearchQuery { session, text, category })
}

/// `q` is the query of `session` with this category filter and text.
pub open spec fn is_query(q: SearchQuery, session: u64, category: Option<Category>, text: Seq<char>) -> bool {
    q.session == session && q.category == category && q.text@ == text
}

/// Abstract state of a session: its identity, lifecycle, the handle the
/// registry issued to it, whether one of its queries is out for search, and the
/// queries waiting behind that one, oldest first.
pub struct SessionView {
    pub id: u64,
    pub state: SessionState,
    pub handle: Option<u64>,
    pub outstanding: bool,
    pub queued: Seq<SearchQuery>,
}

/// One client connection. At most one of its queries is out for search at a
/// time, so its results come back in the order the queries were sent.
pub struct Session {
    id: u64,
    state: SessionState,
    handle: Option<u64>,
    outstanding: bool,
    queued: Vec<SearchQuery>,
}

impl View for Session {
    type V = SessionView;

    closed spec fn view(&self) -> SessionView {
        SessionView {
            id: self.id,
            state: self.state,
            handle: self.handle,
            outstanding: self.outstanding,
            queued: self.queued@,
        }
    }
}

impl Session {
    /// Nothing waits unless a query is out, and only an active session has queries.
    pub open spec fn wf(&self) -> bool {
        &&& (self@.queued.len() > 0 ==> self@.outstanding)
        &&& (self@.outstanding ==> self@.state == SessionState::Active)
    }

    pub fn new(id: u64) -> (r: Session)
        ensures
            r.wf(),
            r@ == (SessionView {
                id,
                state: SessionState::Connecting,
                handle: None,
                outstanding: false,
                queued: Seq::empty(),
            }),
    {
        Session { id, state: SessionState::Connecting, handle: None, outstanding: false, queued: Vec::new() }
    }

    pub fn id(&self) -> (r: u64)
        ensures
            r == self@.id,
    {
        self.id
    }

    pub fn state(&self) -> (r: SessionState)
        ensures
            r == self@.state,
    {
        self.state
    }

    pub fn handle(&self) -> (r: Option<u64>)
        ensures
            r == self@.handle,
    {
        self.handle
    }

    /// Marks the connection registered under `handle`. Only a connecting
    /// session takes it; the result says whether it did.
    pub fn on_connect(&mut self, handle: u64) -> (r: bool)
        requires
            old(self).wf(),
        ensures
            final(self).wf(),
            r == (old(self)@.state == SessionState::Connecting),
            r ==> final(self)@ == (SessionView {
                state: SessionState::Active,
                handle: Some(handle),
                ..old(self)@
            }),
            !r ==> final(self)@ == old(self)@,
    {
        if self.state == SessionState::Connecting {
            self.state = SessionState::Active;
            self.handle = Some(handle);
            true
        } else {
            false
        }
    }

    /// Handles one inbound frame of an active session. A malformed frame is an
    /// error for the client and changes nothing. A well-formed one is handed out
    /// for dispatch when no query of this session is out, and queued otherwise.
    /// Frames reaching a session that is not active are ignored.
    pub fn on_inbound(&mut self, raw: &String) -> (r: Result<Option<SearchQuery>, SessionError>)
        requires
            old(self).wf(),
        ensures
            final(self).wf(),
            old(self)@.state != SessionState::Active ==> (r matches Ok(None)) && final(self)@ == old(
                self,
            )@,
            old(self)@.state == SessionState::Active ==> match parse_request(raw@) {
                None => r == Err::<Option<SearchQuery>, SessionError>(SessionError::MalformedRequest)
                    && final(self)@ == old(self)@,
                Some((category, start)) => {
                    let text = raw@.skip(start);
                    &&& final(self)@.id == old(self)@.id
                    &&& final(self)@.state == old(self)@.state
                    &&& final(self)@.handle == old(self)@.handle
                    &&& final(self)@.outstanding
                    &&& if old(self)@.outstanding {
                        &&& r matches Ok(None)
                        &&& final(self)@.queued.len() == old(self)@.queued.len() + 1
                        &&& final(self)@.queued.drop_last() == old(self)@.queued
                        &&& is_query(final(self)@.queued.last(), old(self)@.id, category, text)
                    } else {
                        &&& r matches Ok(Some(x)) && is_query(x, old(self)@.id, category, text)
                        &&& final(self)@.queued == old(self)@.queued
                    }
                },
            },
    {
        if self.state != SessionState::Active {
            return Ok(None);
        }
        match parse_query(self.id, raw) {
            Err(e) => Err(e),
            Ok(q) => {
                if self.outstanding {
                    self.queued.push(q);
                    assert(self.queued@.drop_last() =~= old(self)@.queued);
                    Ok(None)
                } else {
                    self.outstanding = true;
                    Ok(Some(q))
                }
            },
        }
    }

    /// The query that was out has been answered (with results or a failure).
    /// The oldest queued query, if any, is handed out next.
    pub fn on_answered(&mut self) -> (r: Option<SearchQuery>)
        requires
            old(self).wf(),
        ensures
            final(self).wf(),
            final(self)@.id == old(self)@.id,
            final(self)@.state == old(self)@.state,
            final(self)@.handle == old(self)@.handle,
            old(self)@.queued.len() > 0 ==> r == Some(old(self)@.queued[0]) && final(self)@.queued
                == old(self)@.queued.drop_first() && final(self)@.outstanding,
            old(self)@.queued.len() == 0 ==> r is None && final(self)@.queued == old(self)@.queued
                && !final(self)@.outstanding,
    {
        if self.queued.len() > 0 {
            let q = self.queued.remove(0);
            assert(self.queued@ =~= old(self)@.queued.drop_first());
            Some(q)
        } else {
            self.outstanding = false;
            None
        }
    }

    /// Tears the session down on any exit path: it becomes closed, drops what
    /// was waiting, and returns the handle to release from the registry. A
    /// second call finds nothing to release.
    pub fn on_disconnect(&mut self) -> (r: Option<u64>)
        requires
            old(self).wf(),
        ensures
            final(self).wf(),
            r == old(self)@.handle,
            final(self)@ == (SessionView {
                id: old(self)@.id,
                state: SessionState::Closed,
                handle: None,
                outstanding: false,
                queued: Seq::empty(),
            }),
    {
        self.state = SessionState::Closed;
        self.outstanding = false;
        self.queued.clear();
        let h = self.handle;
        self.handle = None;
        h
    }
}

} // verus!
