//! The transient status message and the character buffer that frame text is
//! assembled in.

use vstd::prelude::*;
use vstd::string::StrSliceExecFns;

verus! {

/// How long a status message stays readable, in milliseconds.
pub const MESSAGE_LIFETIME_MS: u64 = 5000;

/// A transient status line: the text and the instant (caller-supplied
/// milliseconds) it was set.  It expires once its age exceeds
/// `MESSAGE_LIFETIME_MS`, evaluated lazily when it is read.
pub struct StatusMessage {
    pub message: Option<String>,
    pub set_time: Option<u64>,
}

/// Whether a message set at `set_time` is no longer shown at `now`.
pub open spec fn message_expired(set_time: u64, now: u64) -> bool {
    now >= set_time && now - set_time > MESSAGE_LIFETIME_MS
}

impl StatusMessage {
    /// The text and its timestamp are present or absent together.
    pub open spec fn wf(&self) -> bool {
        self.message is Some <==> self.set_time is Some
    }

    /// A message shown from instant `now_ms` on.
    pub fn new(initial_message: String, now_ms: u64) -> (sm: StatusMessage)
        ensures
            sm.message matches Some(m) && m@ == initial_message@,
            sm.set_time matches Some(t) && t == now_ms,
            sm.wf(),
    {
        StatusMessage { message: Some(initial_message), set_time: Some(now_ms) }
    }

    /// Replaces the message and restarts its lifetime at `now_ms`.
    pub fn set_message(&mut self, message: String, now_ms: u64)
        ensures
            final(self).message matches Some(m) && m@ == message@,
            final(self).set_time matches Some(t) && t == now_ms,
            final(self).wf(),
    {
        self.message = Some(message);
        self.set_time = Some(now_ms);
    }

    /// The current message at instant `now_ms`, if it has not expired; an
    /// expired message is cleared on this read.
    pub fn message(&mut self, now_ms: u64) -> (r: Option<String>)
        requires
            old(self).wf(),
        ensures
            final(self).wf(),
            old(self).set_time is None ==> (r is None && *final(self) == *old(self)),
            (old(self).set_time matches Some(t) && message_expired(t, now_ms)) ==> (r is None
                && final(self).message is None && final(self).set_time is None),
            (old(self).set_time matches Some(t) && !message_expired(t, now_ms)) ==> (*final(self)
                == *old(self) && r is Some && (old(self).message matches Some(m) && r->0@ == m@)),
    {
        match self.set_time {
            None => None,
            Some(t) => {
                if now_ms >= t && now_ms - t > MESSAGE_LIFETIME_MS {
                    self.message = None;
                    self.set_time = None;
                    None
                } else {
                    match &self.message {
                        Some(m) => Some(m.clone()),
                        None => None,
                    }
                }
            },
        }
    }
}

/// An append-only character buffer: the text of a frame segment is pushed
/// into it piece by piece.
pub struct WritingController {
    pub content: Vec<char>,
}

impl WritingController {
    /// An empty buffer.
    pub fn new() -> (wc: WritingController)
        ensures
            wc.content@ == Seq::<char>::empty(),
    {
        WritingController { content: Vec::new() }
    }

    /// Appends one character.
    pub fn push(&mut self, ch: char)
        ensures
            final(self).content@ == old(self).content@.push(ch),
    {
        self.content.push(ch);
    }

    /// Appends every character of `chars`.
    pub fn push_chars(&mut self, chars: &Vec<char>)
        ensures
            final(self).content@ == old(self).content@ + chars@,
    {
        let n = chars.len();
        let mut i: usize = 0;
        while i < n
            invariant
                i <= n,
                n == chars@.len(),
                self.content@ == old(self).content@ + chars@.take(i as int),
            decreases n - i,
        {
            let c = chars[i];
            self.content.push(c);
            proof {
                assert(old(self).content@ + chars@.take(i + 1) =~= (old(self).content@
                    + chars@.take(i as int)).push(c));
            }
            i += 1;
        }
        proof {
            assert(old(self).content@ + chars@.take(n as int) =~= old(self).content@ + chars@);
        }
    }

    /// Appends every character of `string`.
    pub fn push_str(&mut self, string: &str)
        ensures
            final(self).content@ == old(self).content@ + string@,
    {
        let n = string.unicode_len();
        let mut i: usize = 0;
        while i < n
            invariant
                i <= n,
                n == string@.len(),
                self.content@ == old(self).content@ + string@.take(i as int),
            decreases n - i,
        {
            let c = string.get_char(i);
            self.content.push(c);
            proof {
                assert(old(self).content@ + string@.take(i + 1) =~= (old(self).content@
                    + string@.take(i as int)).push(c));
            }
            i += 1;
        }
        proof {
            assert(old(self).content@ + string@.take(n as int) =~= old(self).content@ + string@);
        }
    }
}

} // verus!
