//! The persistent registry, modeled in memory: a table of
//! `(short_code, original_url)` records with unique codes, and the durable
//! `current_code_length` setting.
//!
//! The model of a registry is the map from each stored short code to its
//! original URL (the `View` impl), together with the length setting.

use vstd::prelude::*;

verus! {

/// The code length used when the setting was never written.
pub const DEFAULT_CODE_LENGTH: usize = 4;

/// One stored binding of a short code to the URL it abbreviates.
pub struct ShortUrlRecord {
    pub short_code: String,
    pub original_url: String,
}

/// Outcome of an atomic insert-if-absent on the record table.
#[derive(Clone, Copy, Debug, PartialEq, Eq, Structural)]
pub enum ReserveOutcome {
    /// The code was free and is now bound to the given URL.
    Reserved,
    /// The code is already bound; nothing changed.
    Conflict,
}

/// Durable storage for short-code bindings plus the shared code-length
/// setting. Codes are unique; a binding, once made, is never altered.
pub struct Registry {
    records: Vec<ShortUrlRecord>,
    code_length: usize,
}

impl View for Registry {
    type V = Map<Seq<char>, Seq<char>>;

    /// The registry, read as the map from stored codes to their URLs.
    closed spec fn view(&self) -> Map<Seq<char>, Seq<char>> {
        Map::new(
            |code: Seq<char>| self.contains_code(code),
            |code: Seq<char>| self.stored_url(code),
        )
    }
}

impl Registry {
    /// True when some record binds `code`.
    pub closed spec fn contains_code(self, code: Seq<char>) -> bool {
        exists|i: int|
            0 <= i < self.records@.len() && self.records@[i].short_code@ == code
    }

    /// The URL bound to `code`, where one exists.
    pub closed spec fn stored_url(self, code: Seq<char>) -> Seq<char> {
        let i = choose|i: int|
            0 <= i < self.records@.len() && self.records@[i].short_code@ == code;
        self.records@[i].original_url@
    }

    /// The current value of the code-length setting.
    pub closed spec fn length_setting(self) -> int {
        self.code_length as int
    }

    /// Every stored code is bound at most once, and the length setting is a
    /// positive integer.
    pub closed spec fn wf(self) -> bool {
        &&& 1 <= self.code_length
        &&& forall|i: int, j: int|
            0 <= i < self.records@.len() && 0 <= j < self.records@.len() && i != j
                ==> self.records@[i].short_code@ != self.records@[j].short_code@
    }

    /// An empty registry: no bindings, and the default code length.
    pub fn new() -> (r: Registry)
        ensures
            r.wf(),
            r@ == Map::<Seq<char>, Seq<char>>::empty(),
            r.length_setting() == DEFAULT_CODE_LENGTH,
    {
        let r = Registry { records: Vec::new(), code_length: DEFAULT_CODE_LENGTH };
        proof {
            assert(r@ =~= Map::<Seq<char>, Seq<char>>::empty());
        }
        r
    }

    /// Reads the code-length setting.
    pub fn read_code_length(&self) -> (n: usize)
        requires
            self.wf(),
        ensures
            n == self.length_setting(),
            n >= 1,
    {
        self.code_length
    }

    /// Upserts the code-length setting; the record table is untouched.
    pub fn write_code_length(&mut self, n: usize)
        requires
            old(self).wf(),
            n >= 1,
        ensures
            final(self).wf(),
            final(self)@ == old(self)@,
            final(self).length_setting() == n,
    {
        self.code_length = n;
    }

    /// Atomic insert-if-absent: binds `code` to `original_url` unless `code`
    /// is already bound, in which case nothing changes.
    pub fn try_reserve(&mut self, code: &str, original_url: &str) -> (r: ReserveOutcome)
        requires
            old(self).wf(),
        ensures
            final(self).wf(),
            final(self).length_setting() == old(self).length_setting(),
            match r {
                ReserveOutcome::Reserved => {
                    &&& !old(self)@.contains_key(code@)
                    &&& final(self)@ == old(self)@.insert(code@, original_url@)
                },
                ReserveOutcome::Conflict => {
                    &&& old(self)@.contains_key(code@)
                    &&& *final(self) == *old(self)
                },
            },
    {
        let code_string: String = code.to_owned();
        let n = self.records.len();
        let mut i: usize = 0;
        while i < n
            invariant
                *self == *old(self),
                old(self).wf(),
                n == self.records@.len(),
                i <= n,
                code_string@ == code@,
                forall|j: int| 0 <= j < i ==> self.records@[j].short_code@ != code@,
            decreases n - i,
        {
            if self.records[i].short_code == code_string {
                proof {
                    assert(old(self).contains_code(code@));
                }
                return ReserveOutcome::Conflict;
            }
            i = i + 1;
        }
        proof {
            assert(!old(self).contains_code(code@));
        }
        self.records.push(
            ShortUrlRecord { short_code: code_string, original_url: original_url.to_owned() },
        );
        proof {
            let pre = *old(self);
            let post = *self;
            let len = pre.records@.len() as int;
            assert(post.records@ == pre.records@.push(post.records@[len]));
            assert(post.records@[len].short_code@ == code@);
            assert(post.records@[len].original_url@ == original_url@);
            assert(post.wf()) by {
                assert forall|a: int, b: int|
                    0 <= a < post.records@.len() && 0 <= b < post.records@.len() && a != b
                        implies post.records@[a].short_code@
                        != post.records@[b].short_code@ by {
                    if a < len && b < len {
                        assert(pre.records@[a].short_code@ != pre.records@[b].short_code@);
                    }
                }
            }
            assert forall|k: Seq<char>| #[trigger] post.contains_code(k) implies pre.contains_code(
                k,
            ) || k == code@ by {
                let w = choose|w: int|
                    0 <= w < post.records@.len() && post.records@[w].short_code@ == k;
                if w < len {
                    assert(pre.contains_code(k));
                }
            }
            assert forall|k: Seq<char>| pre.contains_code(k) implies #[trigger] post.contains_code(
                k,
            ) by {
                let w = choose|w: int|
                    0 <= w < pre.records@.len() && pre.records@[w].short_code@ == k;
                assert(post.records@[w].short_code@ == k);
            }
            assert(post.contains_code(code@));
            assert forall|k: Seq<char>| #[trigger] post.contains_code(k) implies post.stored_url(k)
                == (if k == code@ {
                original_url@
            } else {
                pre.stored_url(k)
            }) by {
                let w = choose|w: int|
                    0 <= w < post.records@.len() && post.records@[w].short_code@ == k;
                lemma_stored_url_at(post, w);
                if k == code@ {
                    assert(w == len);
                } else {
                    assert(w < len);
                    lemma_stored_url_at(pre, w);
                }
            }
            assert(post@ =~= pre@.insert(code@, original_url@));
        }
        ReserveOutcome::Reserved
    }

    /// Looks a short code up: the bound URL, or `None` when no record binds
    /// the code.
    pub fn lookup(&self, short_code: &str) -> (r: Option<String>)
        requires
            self.wf(),
        ensures
            match r {
                Some(u) => self@.contains_key(short_code@) && u@ == self@[short_code@],
                None => !self@.contains_key(short_code@),
            },
    {
        let code_string: String = short_code.to_owned();
        let n = self.records.len();
        let mut i: usize = 0;
        while i < n
            invariant
                self.wf(),
                n == self.records@.len(),
                i <= n,
                code_string@ == short_code@,
                forall|j: int| 0 <= j < i ==> self.records@[j].short_code@ != short_code@,
            decreases n - i,
        {
            if self.records[i].short_code == code_string {
                proof {
                    lemma_stored_url_at(*self, i as int);
                }
                return Some(self.records[i].original_url.clone());
            }
            i = i + 1;
        }
        proof {
            assert(!self.contains_code(short_code@));
        }
        None
    }
}

/// A decimal digit.
pub open spec fn is_digit_char(c: char) -> bool {
    '0' <= c && c <= '9'
}

/// The numeric value of a decimal digit.
pub open spec fn digit_value(c: char) -> int {
    c as int - '0' as int
}

/// The number a sequence of decimal digits denotes, most significant digit
/// first.
pub open spec fn decimal_value(s: Seq<char>) -> int
    decreases s.len(),
{
    if s.len() == 0 {
        0
    } else {
        decimal_value(s.drop_last()) * 10 + digit_value(s.last())
    }
}

/// A non-empty string of decimal digits.
pub open spec fn is_decimal_string(s: Seq<char>) -> bool {
    s.len() > 0 && forall|i: int| 0 <= i < s.len() ==> is_digit_char(s[i])
}

/// Reads the stored code-length setting out of its string form: the value
/// of a string of decimal digits, or the default for anything else (empty,
/// a stray character, or a value past what the machine can hold).
pub fn parse_code_length(s: &str) -> (n: usize)
    ensures
        is_decimal_string(s@) && decimal_value(s@) <= usize::MAX ==> n == decimal_value(s@),
        !(is_decimal_string(s@) && decimal_value(s@) <= usize::MAX) ==> n == DEFAULT_CODE_LENGTH,
{
    if !s.is_ascii() {
        proof {
            if is_decimal_string(s@) {
                assert forall|i: int| 0 <= i < s@.len() implies '\0' <= #[trigger] s@[i]
                    <= '\u{7f}' by {
                    assert(is_digit_char(s@[i]));
                }
                assert(false);
            }
        }
        return DEFAULT_CODE_LENGTH;
    }
    let bytes = s.as_bytes();
    proof {
        assert(bytes@ =~= Seq::new(s@.len(), |i: int| s@[i] as u8));
    }
    let len = bytes.len();
    if len == 0 {
        return DEFAULT_CODE_LENGTH;
    }
    let mut value: usize = 0;
    let mut i: usize = 0;
    while i < len
        invariant
            bytes@.len() == s@.len(),
            forall|j: int| 0 <= j < s@.len() ==> bytes@[j] == s@[j] as u8,
            forall|j: int| 0 <= j < s@.len() ==> '\0' <= #[trigger] s@[j] <= '\u{7f}',
            len == bytes@.len(),
            0 < len,
            i <= len,
            forall|j: int| 0 <= j < i ==> is_digit_char(s@[j]),
            value == decimal_value(s@.take(i as int)),
        decreases len - i,
    {
        let b = bytes[i];
        if b < 48 || b > 57 {
            proof {
                assert(!is_digit_char(s@[i as int]));
            }
            return DEFAULT_CODE_LENGTH;
        }
        let d = b - 48;
        let widened: u128 = (value as u128) * 10 + (d as u128);
        proof {
            assert(s@.take(i as int + 1).drop_last() =~= s@.take(i as int));
            assert(is_digit_char(s@[i as int]));
            assert(digit_value(s@[i as int]) == d as int);
            assert(decimal_value(s@.take(i as int + 1)) == value * 10 + d);
        }
        if widened > (usize::MAX as u128) {
            proof {
                if is_decimal_string(s@) && decimal_value(s@) <= usize::MAX {
                    lemma_decimal_prefix_le(s@, i as int + 1, s@.len() as int);
                    assert(s@.take(s@.len() as int) =~= s@);
                    assert(false);
                }
            }
            return DEFAULT_CODE_LENGTH;
        }
        value = widened as usize;
        i = i + 1;
    }
    proof {
        assert(s@.take(len as int) =~= s@);
        assert(is_decimal_string(s@));
    }
    value
}

/// A prefix of a digit string never denotes more than a longer prefix:
/// every further digit scales the value up and adds a digit on.
proof fn lemma_decimal_prefix_le(s: Seq<char>, i: int, j: int)
    requires
        0 <= i <= j <= s.len(),
        forall|k: int| 0 <= k < j ==> is_digit_char(s[k]),
    ensures
        decimal_value(s.take(i)) <= decimal_value(s.take(j)),
    decreases j - i,
{
    if i < j {
        lemma_decimal_prefix_le(s, i, j - 1);
        lemma_decimal_value_nonneg(s.take(j - 1));
        assert(s.take(j).drop_last() =~= s.take(j - 1));
        assert(decimal_value(s.take(j)) == decimal_value(s.take(j - 1)) * 10 + digit_value(
            s[j - 1],
        ));
    }
}

/// A string of digits never denotes a negative number.
proof fn lemma_decimal_value_nonneg(s: Seq<char>)
    requires
        forall|i: int| 0 <= i < s.len() ==> is_digit_char(s[i]),
    ensures
        decimal_value(s) >= 0,
    decreases s.len(),
{
    if s.len() > 0 {
        lemma_decimal_value_nonneg(s.drop_last());
    }
}

/// The URL stored for the code of the record at index `i` is that record's
/// own URL: code uniqueness pins the witness down.
proof fn lemma_stored_url_at(r: Registry, i: int)
    requires
        r.wf(),
        0 <= i < r.records@.len(),
    ensures
        r.contains_code(r.records@[i].short_code@),
        r.stored_url(r.records@[i].short_code@) == r.records@[i].original_url@,
{
    let code = r.records@[i].short_code@;
    assert(r.contains_code(code));
    let j = choose|j: int| 0 <= j < r.records@.len() && r.records@[j].short_code@ == code;
    if j != i {
        assert(r.records@[i].short_code@ != r.records@[j].short_code@);
    }
}

} // verus!
