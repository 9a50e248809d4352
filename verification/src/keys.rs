//! Classification of raw command-line tokens into structured keys.

use vstd::prelude::*;

verus! {

/// Whether a character has the Unicode `Alphabetic` property.  The property
/// is decided by `char::is_alphabetic`, whose result depends on the
/// character alone; it is left uninterpreted here.
pub uninterp spec fn alphabetic(c: char) -> bool;

/// Relies on `char::is_alphabetic`: returns whether the character has the
/// Unicode `Alphabetic` property, a function of the character alone.
#[verifier::external_body]
fn char_is_alphabetic(c: char) -> (r: bool)
    ensures
        r == alphabetic(c),
{
    c.is_alphabetic()
}

/// Relies on `String::push`: appends the given character to the end of the
/// string.
pub assume_specification[ String::push ](s: &mut String, c: char)
    ensures
        final(s)@ == old(s)@.push(c),
;

/// The mathematical shape of a [`Key`]: the same four variants, with every
/// piece of text abstracted to its character sequence.
pub enum KeyModel {
    /// One logical flag in its paired short and long forms.
    Dual { lead: char, short: char, long: Seq<char> },
    /// A long flag such as `--all`.
    Long { lead: char, word: Seq<char> },
    /// A short flag such as `-a`.
    Short { lead: char, symbol: char },
    /// A bare subcommand word such as `list`.
    Sub { word: Seq<char> },
}

/// Length of the leading run of `c` at the front of `t`.
pub open spec fn lead_run(t: Seq<char>, c: char) -> int
    decreases t.len(),
{
    if t.len() == 0 || t[0] != c {
        0
    } else {
        1 + lead_run(t.drop_first(), c)
    }
}

/// Classification of one raw token.
///
/// A token whose first character is not alphabetic is a flag: exactly two
/// characters make a short flag, anything else drops the leading run of its
/// first character and becomes a long flag.  A token that starts with an
/// alphabetic character is a subcommand word, and so is the empty token,
/// which no flag key ever matches.
pub open spec fn classify(t: Seq<char>) -> KeyModel {
    if t.len() == 0 {
        KeyModel::Sub { word: t }
    } else if alphabetic(t[0]) {
        KeyModel::Sub { word: t }
    } else if t.len() == 2 {
        KeyModel::Short { lead: t[0], symbol: t[1] }
    } else {
        KeyModel::Long { lead: t[0], word: t.subrange(lead_run(t, t[0]), t.len() as int) }
    }
}

proof fn lemma_lead_run_at(t: Seq<char>, c: char, i: int)
    requires
        0 <= i <= t.len(),
        forall|j: int| 0 <= j < i ==> t[j] == c,
        i < t.len() ==> t[i] != c,
    ensures
        lead_run(t, c) == i,
    decreases t.len(),
{
    if t.len() == 0 {
    } else if i == 0 {
    } else {
        assert(t[0] == c);
        lemma_lead_run_at(t.drop_first(), c, i - 1);
    }
}

/// A processable argument: the classified form of one raw token, or of a
/// short/long pair.
#[derive(Debug)]
#[allow(inconsistent_fields)]
pub enum Key {
    /// The paired short and long forms of one logical flag, built from a
    /// two-token pair such as `-a` and `--all`.
    Dual {
        /// The character at the beginning of each form.
        char: char,
        /// The single character of the short form.
        s_txt: char,
        /// The word of the long form.
        l_txt: String,
    },
    /// A full-name flag such as `--all`.
    Long {
        /// The character at the beginning of the token.
        char: char,
        /// The word of the flag.
        txt: String,
    },
    /// A single-letter flag such as `-a`.
    Short {
        /// The character at the beginning of the token.
        char: char,
        /// The letter of the flag.
        txt: char,
    },
    /// A subcommand word such as `list`.
    Sub {
        /// The word itself.
        txt: String,
    },
}

impl View for Key {
    type V = KeyModel;

    open spec fn view(&self) -> KeyModel {
        match self {
            Key::Dual { char: c, s_txt, l_txt } => KeyModel::Dual {
                lead: *c,
                short: *s_txt,
                long: l_txt@,
            },
            Key::Long { char: c, txt } => KeyModel::Long { lead: *c, word: txt@ },
            Key::Short { char: c, txt } => KeyModel::Short { lead: *c, symbol: *txt },
            Key::Sub { txt } => KeyModel::Sub { word: txt@ },
        }
    }
}

/// Classifies one raw token; total, so that buffers may hold any string.
fn classify_token(token: &str) -> (k: Key)
    ensures
        k@ == classify(token@),
{
    let n = token.unicode_len();
    if n == 0 {
        return Key::Sub { txt: token.to_owned() };
    }
    let c0 = token.get_char(0);
    if char_is_alphabetic(c0) {
        Key::Sub { txt: token.to_owned() }
    } else if n == 2 {
        Key::Short { char: c0, txt: token.get_char(1) }
    } else {
        let mut i: usize = 0;
        while i < n && token.get_char(i) == c0
            invariant
                0 <= i <= n,
                n == token@.len(),
                forall|j: int| 0 <= j < i ==> token@[j] == c0,
            decreases n - i,
        {
            i += 1;
        }
        proof {
            lemma_lead_run_at(token@, c0, i as int);
        }
        let txt = token.substring_char(i, n).to_owned();
        Key::Long { char: c0, txt }
    }
}

/// The lead prefix character of a key; the null character for a subcommand
/// word, which has no prefix.
pub open spec fn key_char(k: KeyModel) -> char {
    match k {
        KeyModel::Dual { lead, .. } => lead,
        KeyModel::Long { lead, .. } => lead,
        KeyModel::Short { lead, .. } => lead,
        KeyModel::Sub { .. } => '\0',
    }
}

/// The display word of a key: the long word of a dual, a short flag's single
/// character, otherwise the word itself.
pub open spec fn key_text(k: KeyModel) -> Seq<char> {
    match k {
        KeyModel::Dual { long, .. } => long,
        KeyModel::Long { word, .. } => word,
        KeyModel::Short { symbol, .. } => seq![symbol],
        KeyModel::Sub { word } => word,
    }
}

/// The dual key built from the classifications of a two-token pair, of which
/// one is a short flag and the other a long one, in either order.  The lead
/// character is the long form's.
pub open spec fn dual_model(a: KeyModel, b: KeyModel) -> KeyModel {
    match a {
        KeyModel::Long { lead, word } => match b {
            KeyModel::Short { symbol, .. } => KeyModel::Dual { lead, short: symbol, long: word },
            _ => a,
        },
        KeyModel::Short { symbol, .. } => match b {
            KeyModel::Long { lead, word } => KeyModel::Dual { lead, short: symbol, long: word },
            _ => a,
        },
        _ => a,
    }
}

/// The display form of a key: `-a` for a short flag, `--all` for a long one,
/// `-a, --all` for a dual, the bare word for a subcommand.
pub open spec fn display_of(k: KeyModel) -> Seq<char> {
    match k {
        KeyModel::Dual { lead, short, long } => seq![lead, short, ',', ' ', lead, lead] + long,
        KeyModel::Long { lead, word } => seq![lead, lead] + word,
        KeyModel::Short { lead, symbol } => seq![lead, symbol],
        KeyModel::Sub { word } => word,
    }
}

/// Whether a raw token is a single-form token that the display form maps
/// back to itself: a short flag, a long flag written with exactly two lead
/// characters, or a subcommand word.
pub open spec fn well_formed_single(t: Seq<char>) -> bool {
    ||| (t.len() == 2 && !alphabetic(t[0]))
    ||| (t.len() >= 3 && !alphabetic(t[0]) && t[1] == t[0] && t[2] != t[0])
    ||| (t.len() >= 1 && alphabetic(t[0]))
}

impl Key {
    /// Classifies one raw token into a key.
    ///
    /// The empty token carries no first character to classify and is ruled
    /// out.
    pub fn parse(token: &str) -> (k: Key)
        requires
            token@.len() > 0,
        ensures
            k@ == classify(token@),
    {
        classify_token(token)
    }

    /// Classifies one raw token into a key, rejecting the empty token
    /// explicitly instead of ruling it out beforehand.
    pub fn try_parse(token: &str) -> (r: Option<Key>)
        ensures
            token@.len() == 0 ==> r is None,
            token@.len() > 0 ==> (r matches Some(k) && k@ == classify(token@)),
    {
        if token.is_empty() {
            None
        } else {
            Some(classify_token(token))
        }
    }

    /// Builds the dual key of a short/long pair, given in either order.
    ///
    /// Pairing a flag with a subcommand word is nonsensical, and a pair of
    /// two short or two long forms leaves no short character to take, so
    /// exactly one token must classify as a short flag and the other as a
    /// long one.
    pub fn dual(a: &str, b: &str) -> (k: Key)
        requires
            (classify(a@) is Short && classify(b@) is Long) || (classify(a@) is Long
                && classify(b@) is Short),
        ensures
            k@ == dual_model(classify(a@), classify(b@)),
    {
        let ka = classify_token(a);
        let kb = classify_token(b);
        match (ka, kb) {
            (Key::Long { char: c, txt: w }, Key::Short { char: _, txt: s }) => Key::Dual {
                char: c,
                s_txt: s,
                l_txt: w,
            },
            (Key::Short { char: _, txt: s }, Key::Long { char: c, txt: w }) => Key::Dual {
                char: c,
                s_txt: s,
                l_txt: w,
            },
            _ => unreached(),
        }
    }

    /// The lead prefix character; the null character for a subcommand word.
    pub fn char(&self) -> (c: char)
        ensures
            c == key_char(self@),
    {
        match self {
            Key::Dual { char: c, .. } => *c,
            Key::Long { char: c, .. } => *c,
            Key::Short { char: c, .. } => *c,
            Key::Sub { .. } => '\0',
        }
    }

    /// The display word alone: `--all` yields `all`.
    pub fn text(&self) -> (t: String)
        ensures
            t@ == key_text(self@),
    {
        match self {
            Key::Dual { l_txt, .. } => l_txt.clone(),
            Key::Long { txt, .. } => txt.clone(),
            Key::Short { txt, .. } => {
                let mut s = String::new();
                s.push(*txt);
                assert(s@ =~= seq![*txt]);
                s
            },
            Key::Sub { txt } => txt.clone(),
        }
    }

    /// Whether the key is a dual.
    pub fn is_dual(&self) -> (r: bool)
        ensures
            r == (self@ is Dual),
    {
        match self {
            Key::Dual { .. } => true,
            _ => false,
        }
    }

    /// Whether the key is a long flag.
    pub fn is_long(&self) -> (r: bool)
        ensures
            r == (self@ is Long),
    {
        match self {
            Key::Long { .. } => true,
            _ => false,
        }
    }

    /// Whether the key is a short flag.
    pub fn is_short(&self) -> (r: bool)
        ensures
            r == (self@ is Short),
    {
        match self {
            Key::Short { .. } => true,
            _ => false,
        }
    }

    /// Whether the key is a subcommand word.
    pub fn is_sub(&self) -> (r: bool)
        ensures
            r == (self@ is Sub),
    {
        match self {
            Key::Sub { .. } => true,
            _ => false,
        }
    }

    /// Renders the key in display form: `-a`, `--all`, `-a, --all`, or the
    /// bare subcommand word.
    pub fn display(&self) -> (r: String)
        ensures
            r@ == display_of(self@),
    {
        match self {
            Key::Dual { char: c, s_txt, l_txt } => {
                let mut s = String::new();
                s.push(*c);
                s.push(*s_txt);
                s.append(", ");
                s.push(*c);
                s.push(*c);
                s.append(l_txt.as_str());
                proof {
                    reveal_strlit(", ");
                    assert(", "@ =~= seq![',', ' ']);
                    assert(s@ =~= display_of(self@));
                }
                s
            },
            Key::Long { char: c, txt } => {
                let mut s = String::new();
                s.push(*c);
                s.push(*c);
                s.append(txt.as_str());
                assert(s@ =~= display_of(self@));
                s
            },
            Key::Short { char: c, txt } => {
                let mut s = String::new();
                s.push(*c);
                s.push(*txt);
                assert(s@ =~= display_of(self@));
                s
            },
            Key::Sub { txt } => txt.clone(),
        }
    }
}

impl PartialEq for Key {
    /// Two keys are equal exactly when their variant and all fields match;
    /// a short and a long flag with the same text are different keys.
    fn eq(&self, other: &Key) -> (r: bool) {
        match (self, other) {
            (
                Key::Dual { char: c1, s_txt: s1, l_txt: l1 },
                Key::Dual { char: c2, s_txt: s2, l_txt: l2 },
            ) => *c1 == *c2 && *s1 == *s2 && *l1 == *l2,
            (Key::Long { char: c1, txt: t1 }, Key::Long { char: c2, txt: t2 }) => *c1 == *c2 && *t1 == *t2,
            (Key::Short { char: c1, txt: t1 }, Key::Short { char: c2, txt: t2 }) => *c1 == *c2
                && *t1 == *t2,
            (Key::Sub { txt: t1 }, Key::Sub { txt: t2 }) => *t1 == *t2,
            _ => false,
        }
    }
}

impl vstd::std_specs::cmp::PartialEqSpecImpl for Key {
    open spec fn obeys_eq_spec() -> bool {
        true
    }

    open spec fn eq_spec(&self, other: &Key) -> bool {
        self@ == other@
    }
}

impl Eq for Key {

}

/// Classification of a valid short token: a non-alphabetic lead character
/// followed by exactly one more character yields the short flag of the two.
pub proof fn lemma_classify_short(t: Seq<char>)
    requires
        t.len() == 2,
        !alphabetic(t[0]),
    ensures
        classify(t) == (KeyModel::Short { lead: t[0], symbol: t[1] }),
{
}

/// Classification of a canonical long token: a non-alphabetic lead character
/// written exactly twice and followed by a word yields the long flag of that
/// word.
pub proof fn lemma_classify_long(t: Seq<char>)
    requires
        t.len() >= 3,
        !alphabetic(t[0]),
        t[1] == t[0],
        t[2] != t[0],
    ensures
        classify(t) == (KeyModel::Long { lead: t[0], word: t.subrange(2, t.len() as int) }),
{
    lemma_lead_run_at(t, t[0], 2);
}

/// Classification of a word token: an alphabetic lead character yields the
/// subcommand key of the whole token.
pub proof fn lemma_classify_sub(t: Seq<char>)
    requires
        t.len() >= 1,
        alphabetic(t[0]),
    ensures
        classify(t) == (KeyModel::Sub { word: t }),
{
}

/// Dual construction is order-insensitive: a short/long pair builds the same
/// dual key whichever token comes first.
pub proof fn lemma_dual_order_insensitive(a: Seq<char>, b: Seq<char>)
    requires
        (classify(a) is Short && classify(b) is Long) || (classify(a) is Long && classify(
            b,
        ) is Short),
    ensures
        dual_model(classify(a), classify(b)) == dual_model(classify(b), classify(a)),
{
}

/// Whether a raw token answers to a key: a dual key is matched by the token
/// of either of its two forms, and every other key is matched exactly by the
/// tokens that classify to it.
pub open spec fn key_matches(k: KeyModel, t: Seq<char>) -> bool {
    match k {
        KeyModel::Dual { lead, short, long } => classify(t) == (KeyModel::Short {
            lead,
            symbol: short,
        }) || classify(t) == (KeyModel::Long { lead, word: long }),
        _ => classify(t) == k,
    }
}

/// Whether a raw token is the subcommand word that a key names: the token
/// must itself classify as a subcommand, so no flag key ever matches here.
pub open spec fn sub_matches(k: KeyModel, t: Seq<char>) -> bool {
    classify(t) is Sub && classify(t) == k
}

/// Whether the token answers to the key.
pub(crate) fn matches_token(key: &Key, token: &str) -> (r: bool)
    ensures
        r == key_matches(key@, token@),
{
    let t = classify_token(token);
    match key {
        Key::Dual { char: c, s_txt, l_txt } => match &t {
            Key::Short { char: tc, txt } => *tc == *c && *txt == *s_txt,
            Key::Long { char: tc, txt } => *tc == *c && *txt == *l_txt,
            _ => false,
        },
        Key::Long { char: c, txt } => match &t {
            Key::Long { char: tc, txt: tw } => *tc == *c && *tw == *txt,
            _ => false,
        },
        Key::Short { char: c, txt } => match &t {
            Key::Short { char: tc, txt: ts } => *tc == *c && *ts == *txt,
            _ => false,
        },
        Key::Sub { txt } => match &t {
            Key::Sub { txt: tw } => *tw == *txt,
            _ => false,
        },
    }
}

/// Whether the token is the subcommand word that the key names.
pub(crate) fn sub_matches_token(key: &Key, token: &str) -> (r: bool)
    ensures
        r == sub_matches(key@, token@),
{
    let t = classify_token(token);
    match key {
        Key::Sub { txt } => match &t {
            Key::Sub { txt: tw } => *tw == *txt,
            _ => false,
        },
        _ => false,
    }
}

/// Round trip: the display form of a well-formed single-form token is the
/// token itself.
pub proof fn lemma_display_round_trip(t: Seq<char>)
    requires
        well_formed_single(t),
    ensures
        display_of(classify(t)) == t,
{
    if t.len() == 2 && !alphabetic(t[0]) {
        assert(display_of(classify(t)) =~= t);
    } else if t.len() >= 3 && !alphabetic(t[0]) && t[1] == t[0] && t[2] != t[0] {
        lemma_classify_long(t);
        assert(display_of(classify(t)) =~= t);
    } else {
        assert(display_of(classify(t)) =~= t);
    }
}

} // verus!
