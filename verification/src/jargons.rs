//! The buffer of remaining unconsumed tokens and its query protocol.

use vstd::prelude::*;

use crate::error::Error;
use crate::keys::Key;
use crate::keys::KeyModel;
use crate::keys::key_char;
use crate::keys::key_matches;
use crate::keys::matches_token;
use crate::keys::sub_matches;
use crate::keys::sub_matches_token;

verus! {

/// The view of a token list: each token as its character sequence.
pub open spec fn tokens_view(v: Seq<String>) -> Seq<Seq<char>> {
    v.map_values(|s: String| s@)
}

/// The position of the first token that answers to the key, or -1 when none
/// does.
pub open spec fn first_match(toks: Seq<Seq<char>>, k: KeyModel) -> int
    decreases toks.len(),
{
    if toks.len() == 0 {
        -1
    } else if key_matches(k, toks[0]) {
        0
    } else if first_match(toks.drop_first(), k) < 0 {
        -1
    } else {
        1 + first_match(toks.drop_first(), k)
    }
}

/// The position of the first token that is the subcommand word the key
/// names, or -1 when none is.
pub open spec fn first_sub_match(toks: Seq<Seq<char>>, k: KeyModel) -> int
    decreases toks.len(),
{
    if toks.len() == 0 {
        -1
    } else if sub_matches(k, toks[0]) {
        0
    } else if first_sub_match(toks.drop_first(), k) < 0 {
        -1
    } else {
        1 + first_sub_match(toks.drop_first(), k)
    }
}

/// Whether a token may serve as an option's value for a key whose lead
/// prefix character is `lead`: it must not itself look like a flag, that is,
/// it must not start with that character.
pub open spec fn value_token(t: Seq<char>, lead: char) -> bool {
    !(t.len() > 0 && t[0] == lead)
}

/// The first match, when there is one, lies inside the token list.
pub proof fn lemma_first_match_bounds(toks: Seq<Seq<char>>, k: KeyModel)
    ensures
        -1 <= first_match(toks, k) < toks.len(),
    decreases toks.len(),
{
    if toks.len() > 0 && !key_matches(k, toks[0]) {
        lemma_first_match_bounds(toks.drop_first(), k);
    }
}

/// Pins the first match down: a position at or before which nothing
/// matches, and which either matches or is the end, is what `first_match`
/// returns.
pub proof fn lemma_first_match_at(toks: Seq<Seq<char>>, k: KeyModel, i: int)
    requires
        0 <= i <= toks.len(),
        forall|j: int| 0 <= j < i ==> !key_matches(k, toks[j]),
        i < toks.len() ==> key_matches(k, toks[i]),
    ensures
        i == toks.len() ==> first_match(toks, k) == -1,
        i < toks.len() ==> first_match(toks, k) == i,
    decreases toks.len(),
{
    if toks.len() == 0 {
    } else if i == 0 {
    } else {
        assert(!key_matches(k, toks[0]));
        lemma_first_match_at(toks.drop_first(), k, i - 1);
    }
}

/// Pins the first subcommand match down, as [`lemma_first_match_at`] does
/// for ordinary matches.
pub proof fn lemma_first_sub_match_at(toks: Seq<Seq<char>>, k: KeyModel, i: int)
    requires
        0 <= i <= toks.len(),
        forall|j: int| 0 <= j < i ==> !sub_matches(k, toks[j]),
        i < toks.len() ==> sub_matches(k, toks[i]),
    ensures
        i == toks.len() ==> first_sub_match(toks, k) == -1,
        i < toks.len() ==> first_sub_match(toks, k) == i,
    decreases toks.len(),
{
    if toks.len() == 0 {
    } else if i == 0 {
    } else {
        assert(!sub_matches(k, toks[0]));
        lemma_first_sub_match_at(toks.drop_first(), k, i - 1);
    }
}

proof fn lemma_tokens_view_remove(s: Seq<String>, i: int)
    requires
        0 <= i < s.len(),
    ensures
        tokens_view(s.remove(i)) == tokens_view(s).remove(i),
{
    assert(tokens_view(s.remove(i)) =~= tokens_view(s).remove(i));
}

proof fn lemma_tokens_view_subrange(s: Seq<String>, a: int, b: int)
    requires
        0 <= a <= b <= s.len(),
    ensures
        tokens_view(s.subrange(a, b)) == tokens_view(s).subrange(a, b),
{
    assert(tokens_view(s.subrange(a, b)) =~= tokens_view(s).subrange(a, b));
}

/// Whether the token starts with the given character.
fn starts_with_char(s: &str, c: char) -> (r: bool)
    ensures
        r == (s@.len() > 0 && s@[0] == c),
{
    if s.is_empty() {
        false
    } else {
        s.get_char(0) == c
    }
}

/// The ordered, mutable sequence of raw tokens still unconsumed.  Element 0
/// is the program or subcommand name; queries scan every position, so
/// callers must not pass the program name itself as a key.
#[derive(Debug)]
pub struct Jargon(Vec<String>);

impl View for Jargon {
    type V = Seq<Seq<char>>;

    closed spec fn view(&self) -> Seq<Seq<char>> {
        tokens_view(self.0@)
    }
}

impl Jargon {
    /// Wraps an explicit token list, whose element 0 must be the program's
    /// or subcommand's name.
    pub fn from_vec(v: Vec<String>) -> (j: Jargon)
        ensures
            j@ == tokens_view(v@),
    {
        Jargon(v)
    }

    /// Tests whether a token answering to the key is present, and removes
    /// the first such token.  Without a match the buffer is left untouched.
    pub fn contains(&mut self, key: &Key) -> (r: bool)
        ensures
            r == (first_match(old(self)@, key@) >= 0),
            r ==> final(self)@ == old(self)@.remove(first_match(old(self)@, key@)),
            !r ==> final(self)@ == old(self)@,
    {
        let n = self.0.len();
        let mut i: usize = 0;
        while i < n
            invariant
                i <= n,
                n == self.0.len(),
                self.0 == old(self).0,
                forall|j: int| 0 <= j < i ==> !key_matches(key@, self@[j]),
            decreases n - i,
        {
            if matches_token(key, self.0[i].as_str()) {
                proof {
                    lemma_first_match_at(self@, key@, i as int);
                    lemma_tokens_view_remove(self.0@, i as int);
                }
                self.0.remove(i);
                return true;
            }
            i += 1;
        }
        proof {
            lemma_first_match_at(self@, key@, n as int);
        }
        false
    }

    /// Tests whether a token answering to the key is present, leaving the
    /// buffer exactly as it was whatever the outcome.
    pub fn contains_nomut(&self, key: &Key) -> (r: bool)
        ensures
            r == (first_match(self@, key@) >= 0),
    {
        let n = self.0.len();
        let mut i: usize = 0;
        while i < n
            invariant
                i <= n,
                n == self.0.len(),
                forall|j: int| 0 <= j < i ==> !key_matches(key@, self@[j]),
            decreases n - i,
        {
            if matches_token(key, self.0[i].as_str()) {
                proof {
                    lemma_first_match_at(self@, key@, i as int);
                }
                return true;
            }
            i += 1;
        }
        proof {
            lemma_first_match_at(self@, key@, n as int);
        }
        false
    }

    /// Extracts the value that follows the first token answering to the key.
    ///
    /// The following token serves as the value only if it does not itself
    /// look like a flag for the key's prefix character.  On success both the
    /// key token and the value are removed; in every other case, including a
    /// key token that is last, the buffer is left untouched and nothing is
    /// returned.
    pub fn option_arg(&mut self, key: &Key) -> (r: Option<String>)
        ensures
            ({
                let i = first_match(old(self)@, key@);
                let n = old(self)@.len() as int;
                &&& i < 0 ==> r is None && final(self)@ == old(self)@
                &&& (i >= 0 && i == n - 1) ==> r is None && final(self)@ == old(self)@
                &&& (0 <= i < n - 1 && !value_token(old(self)@[i + 1], key_char(key@))) ==> r
                    is None && final(self)@ == old(self)@
                &&& (0 <= i < n - 1 && value_token(old(self)@[i + 1], key_char(key@))) ==> (r
                    matches Some(v) && v@ == old(self)@[i + 1] && final(self)@ == old(self)@.remove(
                    i,
                ).remove(i))
            }),
    {
        let n = self.0.len();
        let mut i: usize = 0;
        while i < n
            invariant
                i <= n,
                n == self.0.len(),
                self.0 == old(self).0,
                forall|j: int| 0 <= j < i ==> !key_matches(key@, self@[j]),
            decreases n - i,
        {
            if matches_token(key, self.0[i].as_str()) {
                proof {
                    lemma_first_match_at(self@, key@, i as int);
                }
                if i + 1 >= n {
                    return None;
                }
                let lead = key.char();
                if starts_with_char(self.0[i + 1].as_str(), lead) {
                    return None;
                }
                proof {
                    lemma_tokens_view_remove(self.0@, i as int);
                    lemma_tokens_view_remove(self.0@.remove(i as int), i as int);
                }
                self.0.remove(i);
                let v = self.0.remove(i);
                return Some(v);
            }
            i += 1;
        }
        proof {
            lemma_first_match_at(self@, key@, n as int);
        }
        None
    }

    /// Extracts the value that follows the first token answering to the key,
    /// treating absence as an error.
    ///
    /// Exactly where [`Jargon::option_arg`] would return a value, the value
    /// comes back as a success; in every other case the buffer is left
    /// untouched and the error carries the very key that was sought.
    pub fn result_arg(&mut self, key: Key) -> (r: Result<String, Error>)
        ensures
            ({
                let i = first_match(old(self)@, key@);
                let n = old(self)@.len() as int;
                &&& (0 <= i < n - 1 && value_token(old(self)@[i + 1], key_char(key@))) ==> (r
                    matches Ok(v) && v@ == old(self)@[i + 1] && final(self)@ == old(self)@.remove(
                    i,
                ).remove(i))
                &&& !(0 <= i < n - 1 && value_token(old(self)@[i + 1], key_char(key@))) ==> r == Err::<
                    String,
                    Error,
                >(Error::MissingArg(key)) && final(self)@ == old(self)@
            }),
    {
        proof {
            lemma_first_match_bounds(self@, key@);
        }
        match self.option_arg(&key) {
            Some(v) => Ok(v),
            None => Err(Error::MissingArg(key)),
        }
    }

    /// Removes the first token that is the subcommand word the key names,
    /// hands back everything after it, and keeps what came before.  Without
    /// a match the buffer is left untouched and nothing is returned.
    pub fn subcommand(&mut self, key: &Key) -> (r: Option<Vec<String>>)
        ensures
            ({
                let i = first_sub_match(old(self)@, key@);
                &&& i < 0 ==> r is None && final(self)@ == old(self)@
                &&& i >= 0 ==> (r matches Some(v) && tokens_view(v@) == old(self)@.subrange(
                    i + 1,
                    old(self)@.len() as int,
                ) && final(self)@ == old(self)@.subrange(0, i))
            }),
    {
        let n = self.0.len();
        let mut i: usize = 0;
        while i < n
            invariant
                i <= n,
                n == self.0.len(),
                self.0 == old(self).0,
                forall|j: int| 0 <= j < i ==> !sub_matches(key@, self@[j]),
            decreases n - i,
        {
            if sub_matches_token(key, self.0[i].as_str()) {
                proof {
                    lemma_first_sub_match_at(self@, key@, i as int);
                    lemma_tokens_view_subrange(self.0@, 0, i as int);
                    lemma_tokens_view_subrange(self.0@, i as int, n as int);
                }
                let mut tail = self.0.split_off(i);
                proof {
                    lemma_tokens_view_remove(tail@, 0);
                    assert(tokens_view(tail@).remove(0) =~= old(self)@.subrange(
                        i + 1,
                        old(self)@.len() as int,
                    ));
                }
                tail.remove(0);
                return Some(tail);
            }
            i += 1;
        }
        proof {
            lemma_first_sub_match_at(self@, key@, n as int);
        }
        None
    }

    /// Hands back a copy of everything after the first token that is the
    /// subcommand word the key names, leaving the buffer exactly as it was.
    pub fn subcommand_nomut(&self, key: &Key) -> (r: Option<Vec<String>>)
        ensures
            ({
                let i = first_sub_match(self@, key@);
                &&& i < 0 ==> r is None
                &&& i >= 0 ==> (r matches Some(v) && tokens_view(v@) == self@.subrange(
                    i + 1,
                    self@.len() as int,
                ))
            }),
    {
        let n = self.0.len();
        let mut i: usize = 0;
        while i < n
            invariant
                i <= n,
                n == self.0.len(),
                forall|j: int| 0 <= j < i ==> !sub_matches(key@, self@[j]),
            decreases n - i,
        {
            if sub_matches_token(key, self.0[i].as_str()) {
                proof {
                    lemma_first_sub_match_at(self@, key@, i as int);
                }
                let mut tail: Vec<String> = Vec::new();
                let mut j: usize = i + 1;
                while j < n
                    invariant
                        i < j <= n,
                        n == self.0.len(),
                        tail@.len() == j - i - 1,
                        forall|m: int| 0 <= m < tail@.len() ==> tail@[m] == self.0@[i + 1 + m],
                    decreases n - j,
                {
                    tail.push(self.0[j].clone());
                    j += 1;
                }
                proof {
                    assert(tokens_view(tail@) =~= self@.subrange(i + 1, n as int));
                }
                return Some(tail);
            }
            i += 1;
        }
        proof {
            lemma_first_sub_match_at(self@, key@, n as int);
        }
        None
    }

    /// Runs the handler on everything after the first token that is the
    /// subcommand word the key names, removing that token and what follows
    /// it from the buffer.  Without a match the buffer is left untouched and
    /// the handler is never invoked.
    pub fn on_subcommand<F: FnOnce(Vec<String>)>(&mut self, key: &Key, f: F)
        requires
            ({
                let i = first_sub_match(old(self)@, key@);
                i >= 0 ==> forall|v: Vec<String>|
                    tokens_view(v@) == old(self)@.subrange(i + 1, old(self)@.len() as int)
                        ==> #[trigger] call_requires(f, (v,))
            }),
        ensures
            ({
                let i = first_sub_match(old(self)@, key@);
                &&& i < 0 ==> final(self)@ == old(self)@
                &&& i >= 0 ==> final(self)@ == old(self)@.subrange(0, i) && (exists|
                    v: Vec<String>,
                |
                    tokens_view(v@) == old(self)@.subrange(i + 1, old(self)@.len() as int)
                        && #[trigger] call_ensures(f, (v,), ()))
            }),
    {
        match self.subcommand(key) {
            Some(rest) => f(rest),
            None => (),
        }
    }

    /// Runs a handler that may return a value on everything after the first
    /// token that is the subcommand word the key names, removing that token
    /// and what follows it from the buffer.  Without a match the buffer is
    /// left untouched, the handler is never invoked, and nothing is
    /// returned.
    pub fn opt_on_subcommand<T, F: FnOnce(Vec<String>) -> Option<T>>(
        &mut self,
        key: &Key,
        f: F,
    ) -> (r: Option<T>)
        requires
            ({
                let i = first_sub_match(old(self)@, key@);
                i >= 0 ==> forall|v: Vec<String>|
                    tokens_view(v@) == old(self)@.subrange(i + 1, old(self)@.len() as int)
                        ==> #[trigger] call_requires(f, (v,))
            }),
        ensures
            ({
                let i = first_sub_match(old(self)@, key@);
                &&& i < 0 ==> r is None && final(self)@ == old(self)@
                &&& i >= 0 ==> final(self)@ == old(self)@.subrange(0, i) && (exists|
                    v: Vec<String>,
                |
                    tokens_view(v@) == old(self)@.subrange(i + 1, old(self)@.len() as int)
                        && #[trigger] call_ensures(f, (v,), r))
            }),
    {
        match self.subcommand(key) {
            Some(rest) => f(rest),
            None => None,
        }
    }

    /// Runs a handler that may fail on everything after the first token that
    /// is the subcommand word the key names, removing that token and what
    /// follows it from the buffer.  Without a match the buffer is left
    /// untouched, the handler is never invoked, and the error carries the
    /// very key that was sought.
    pub fn res_on_subcommand<T, F: FnOnce(Vec<String>) -> Result<T, Error>>(
        &mut self,
        key: Key,
        f: F,
    ) -> (r: Result<T, Error>)
        requires
            ({
                let i = first_sub_match(old(self)@, key@);
                i >= 0 ==> forall|v: Vec<String>|
                    tokens_view(v@) == old(self)@.subrange(i + 1, old(self)@.len() as int)
                        ==> #[trigger] call_requires(f, (v,))
            }),
        ensures
            ({
                let i = first_sub_match(old(self)@, key@);
                &&& i < 0 ==> r == Err::<T, Error>(Error::MissingArg(key)) && final(self)@ == old(
                    self,
                )@
                &&& i >= 0 ==> final(self)@ == old(self)@.subrange(0, i) && (exists|
                    v: Vec<String>,
                |
                    tokens_view(v@) == old(self)@.subrange(i + 1, old(self)@.len() as int)
                        && #[trigger] call_ensures(f, (v,), r))
            }),
    {
        match self.subcommand(&key) {
            Some(rest) => f(rest),
            None => Err(Error::MissingArg(key)),
        }
    }

    /// Consumes the buffer, drops the reserved element 0, and hands back the
    /// remaining tokens.  By construction a buffer always carries at least
    /// its element 0.
    pub fn finish(self) -> (r: Vec<String>)
        requires
            self@.len() >= 1,
        ensures
            tokens_view(r@) == self@.drop_first(),
    {
        let Jargon(mut v) = self;
        proof {
            lemma_tokens_view_remove(v@, 0);
            assert(tokens_view(v@).remove(0) =~= tokens_view(v@).drop_first());
        }
        v.remove(0);
        v
    }
}

impl PartialEq for Jargon {
    /// Two buffers are equal exactly when they hold the same tokens in the
    /// same order.
    fn eq(&self, other: &Jargon) -> (r: bool) {
        if self.0.len() != other.0.len() {
            proof {
                assert(self@.len() == self.0@.len());
                assert(other@.len() == other.0@.len());
            }
            return false;
        }
        let n = self.0.len();
        let mut i: usize = 0;
        while i < n
            invariant
                i <= n,
                n == self.0.len(),
                n == other.0.len(),
                forall|j: int| 0 <= j < i ==> self.0@[j]@ == other.0@[j]@,
            decreases n - i,
        {
            if !(self.0[i] == other.0[i]) {
                proof {
                    assert(self@[i as int] == self.0@[i as int]@);
                    assert(other@[i as int] == other.0@[i as int]@);
                }
                return false;
            }
            i += 1;
        }
        proof {
            assert(self@ =~= other@);
        }
        true
    }
}

impl vstd::std_specs::cmp::PartialEqSpecImpl for Jargon {
    open spec fn obeys_eq_spec() -> bool {
        true
    }

    open spec fn eq_spec(&self, other: &Jargon) -> bool {
        self@ == other@
    }
}

impl Eq for Jargon {

}

} // verus!
