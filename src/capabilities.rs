use vstd::prelude::*;

verus! {

/// Whether `pat` occurs as a contiguous run of characters somewhere in `s`.
pub open spec fn contains_seq(s: Seq<char>, pat: Seq<char>) -> bool {
    exists|i: int| 0 <= i <= s.len() - pat.len() && #[trigger] s.subrange(i, i + pat.len()) == pat
}

/// The content modalities a model accepts.
#[derive(Debug, Clone, Copy, PartialEq, Eq, Structural)]
pub struct ModelCapabilities {
    pub text: bool,
    pub vision: bool,
}

/// The capability set described by a free-text configuration value.
pub open spec fn parse_capabilities(s: Seq<char>) -> ModelCapabilities {
    if s.len() == 0 {
        ModelCapabilities { text: true, vision: false }
    } else {
        ModelCapabilities {
            text: contains_seq(s, "text"@),
            vision: contains_seq(s, "vision"@),
        }
    }
}

/// Whether `pat` occurs in `s`, by a scan over every start position.
fn str_contains(s: &str, pat: &str) -> (r: bool)
    ensures
        r == contains_seq(s@, pat@),
{
    let n = s.unicode_len();
    let m = pat.unicode_len();
    if m > n {
        assert(!contains_seq(s@, pat@)) by {
            assert forall|i: int| 0 <= i <= s@.len() - pat@.len() implies
                #[trigger] s@.subrange(i, i + pat@.len()) != pat@ by {}
        }
        return false;
    }
    let mut i: usize = 0;
    while i <= n - m
        invariant
            n == s@.len(),
            m == pat@.len(),
            m <= n,
            i <= n - m + 1,
            forall|k: int| 0 <= k < i ==> #[trigger] s@.subrange(k, k + m) != pat@,
        decreases n - m + 1 - i,
    {
        let mut j: usize = 0;
        let mut same = true;
        while j < m
            invariant
                n == s@.len(),
                m == pat@.len(),
                i + m <= n,
                j <= m,
                same == (forall|t: int| 0 <= t < j ==> s@[i + t] == pat@[t]),
            decreases m - j,
        {
            if s.get_char(i + j) != pat.get_char(j) {
                same = false;
            }
            j = j + 1;
        }
        if same {
            assert(s@.subrange(i as int, i + m) =~= pat@);
            return true;
        }
        assert(s@.subrange(i as int, i + m) != pat@) by {
            let t = choose|t: int| 0 <= t < m && s@[i + t] != pat@[t];
            assert(s@.subrange(i as int, i + m)[t] == s@[i + t]);
        }
        i = i + 1;
    }
    false
}

impl ModelCapabilities {
    /// The set with no capability.
    pub fn empty() -> (r: Self)
        ensures
            !r.text && !r.vision,
    {
        ModelCapabilities { text: false, vision: false }
    }

    /// The set holding plain text only.
    pub fn text_only() -> (r: Self)
        ensures
            r.text && !r.vision,
    {
        ModelCapabilities { text: true, vision: false }
    }

    /// The set holding image input only.
    pub fn vision_only() -> (r: Self)
        ensures
            !r.text && r.vision,
    {
        ModelCapabilities { text: false, vision: true }
    }

    /// The union of two sets.
    pub fn union(self, other: Self) -> (r: Self)
        ensures
            r.text == (self.text || other.text),
            r.vision == (self.vision || other.vision),
    {
        ModelCapabilities { text: self.text || other.text, vision: self.vision || other.vision }
    }

    /// Whether every capability of `other` is in this set.
    pub fn contains(self, other: Self) -> (r: bool)
        ensures
            r == ((other.text ==> self.text) && (other.vision ==> self.vision)),
    {
        (!other.text || self.text) && (!other.vision || self.vision)
    }

    /// Whether the set holds no capability.
    pub fn is_empty(self) -> (r: bool)
        ensures
            r == (!self.text && !self.vision),
    {
        !self.text && !self.vision
    }

    /// Reads a configuration value: each of the words `text` and `vision`
    /// found anywhere in it (case-sensitive) enables its flag, and an empty
    /// value means text only.
    pub fn parse(value: &str) -> (r: Self)
        ensures
            r == parse_capabilities(value@),
    {
        if value.unicode_len() == 0 {
            return Self::text_only();
        }
        let mut output = Self::empty();
        if str_contains(value, "text") {
            output = output.union(Self::text_only());
        }
        if str_contains(value, "vision") {
            output = output.union(Self::vision_only());
        }
        output
    }
}

impl<'a> From<&'a str> for ModelCapabilities {
    fn from(value: &'a str) -> (r: Self) {
        Self::parse(value)
    }
}

impl<'a> vstd::std_specs::convert::FromSpecImpl<&'a str> for ModelCapabilities {
    open spec fn obeys_from_spec() -> bool {
        true
    }

    open spec fn from_spec(value: &'a str) -> Self {
        parse_capabilities(value@)
    }
}

/// The capabilities a configured model has when its entry names none.
pub fn default_capabilities() -> (r: ModelCapabilities)
    ensures
        r == parse_capabilities(Seq::empty()),
        r.text && !r.vision,
{
    ModelCapabilities::text_only()
}

} // verus!
