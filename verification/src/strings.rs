//! Text ordering and small ordered string-keyed collections.

use vstd::prelude::*;
use vstd::string::StrSliceExecFns;
use vstd::utf8::encode_utf8;

verus! {

/// A character of the Unicode `White_Space` property, the set that
/// `str::trim` strips.
pub open spec fn is_white_space(c: char) -> bool {
    ||| ('\u{9}' <= c && c <= '\u{d}')
    ||| c == ' '
    ||| c == '\u{85}'
    ||| c == '\u{a0}'
    ||| c == '\u{1680}'
    ||| ('\u{2000}' <= c && c <= '\u{200a}')
    ||| c == '\u{2028}'
    ||| c == '\u{2029}'
    ||| c == '\u{202f}'
    ||| c == '\u{205f}'
    ||| c == '\u{3000}'
}

/// The text without its leading white space.
pub open spec fn trim_front(text: Seq<char>) -> Seq<char>
    decreases text.len(),
{
    if text.len() > 0 && is_white_space(text[0]) {
        trim_front(text.drop_first())
    } else {
        text
    }
}

/// The text without its trailing white space.
pub open spec fn trim_back(text: Seq<char>) -> Seq<char>
    decreases text.len(),
{
    if text.len() > 0 && is_white_space(text.last()) {
        trim_back(text.drop_last())
    } else {
        text
    }
}

/// What `str::trim` returns for a text: the text without leading and
/// trailing white space.
pub open spec fn trimmed(text: Seq<char>) -> Seq<char> {
    trim_back(trim_front(text))
}

/// What `str::to_lowercase` returns for a text: its Unicode lowercase mapping.
pub uninterp spec fn lowercased(text: Seq<char>) -> Seq<char>;

/// What `<str as Debug>::fmt` writes for a text: the text in double quotes
/// with quotes, backslashes, control and unprintable characters escaped.
pub uninterp spec fn debug_quoted(text: Seq<char>) -> Seq<char>;

/// An ASCII letter or digit; none of these is white space.
pub open spec fn is_ascii_alphanumeric(c: char) -> bool {
    ('a' <= c && c <= 'z') || ('A' <= c && c <= 'Z') || ('0' <= c && c <= '9')
}

proof fn lemma_trim_front_keeps(text: Seq<char>, i: int)
    requires
        0 <= i < text.len(),
        !is_white_space(text[i]),
    ensures
        exists|j: int| 0 <= j < trim_front(text).len() && !is_white_space(#[trigger] trim_front(text)[j]),
    decreases text.len(),
{
    if text.len() > 0 && is_white_space(text[0]) {
        assert(text.drop_first()[i - 1] == text[i]);
        lemma_trim_front_keeps(text.drop_first(), i - 1);
        assert(trim_front(text) == trim_front(text.drop_first()));
    } else {
        assert(!is_white_space(trim_front(text)[i]));
    }
}

proof fn lemma_trim_back_keeps(text: Seq<char>, i: int)
    requires
        0 <= i < text.len(),
        !is_white_space(text[i]),
    ensures
        trim_back(text).len() > 0,
    decreases text.len(),
{
    if text.len() > 0 && is_white_space(text.last()) {
        assert(text.drop_last()[i] == text[i]);
        lemma_trim_back_keeps(text.drop_last(), i);
    }
}

/// A text holding a character that is not white space trims to a non-empty
/// text.
pub proof fn lemma_trimmed_nonempty(text: Seq<char>, i: int)
    requires
        0 <= i < text.len(),
        !is_white_space(text[i]),
    ensures
        trimmed(text).len() > 0,
{
    lemma_trim_front_keeps(text, i);
    let front = trim_front(text);
    let j = choose|j: int| 0 <= j < front.len() && !is_white_space(#[trigger] front[j]);
    lemma_trim_back_keeps(front, j);
}

/// Whether `c` is Unicode `White_Space`.
pub fn is_white_space_char(c: char) -> (r: bool)
    ensures
        r == is_white_space(c),
{
    ('\u{9}' <= c && c <= '\u{d}') || c == ' ' || c == '\u{85}' || c == '\u{a0}' || c == '\u{1680}'
        || ('\u{2000}' <= c && c <= '\u{200a}') || c == '\u{2028}' || c == '\u{2029}' || c
        == '\u{202f}' || c == '\u{205f}' || c == '\u{3000}'
}

proof fn lemma_trim_front_at(text: Seq<char>, k: int)
    requires
        0 <= k <= text.len(),
        forall|j: int| 0 <= j < k ==> is_white_space(#[trigger] text[j]),
    ensures
        trim_front(text) == trim_front(text.subrange(k, text.len() as int)),
    decreases k,
{
    if k > 0 {
        let rest = text.drop_first();
        assert forall|j: int| 0 <= j < k - 1 implies is_white_space(#[trigger] rest[j]) by {
            assert(rest[j] == text[j + 1]);
        }
        lemma_trim_front_at(rest, k - 1);
        assert(rest.subrange(k - 1, rest.len() as int) =~= text.subrange(k, text.len() as int));
        assert(is_white_space(text[0]));
    } else {
        assert(text.subrange(0, text.len() as int) =~= text);
    }
}

proof fn lemma_trim_back_at(text: Seq<char>, k: int)
    requires
        0 <= k <= text.len(),
        forall|j: int| k <= j < text.len() ==> is_white_space(#[trigger] text[j]),
    ensures
        trim_back(text) == trim_back(text.subrange(0, k)),
    decreases text.len() - k,
{
    if k < text.len() {
        let rest = text.drop_last();
        assert(is_white_space(text[text.len() - 1]));
        assert forall|j: int| k <= j < rest.len() implies is_white_space(#[trigger] rest[j]) by {
            assert(rest[j] == text[j]);
        }
        lemma_trim_back_at(rest, k);
        assert(rest.subrange(0, k) =~= text.subrange(0, k));
    } else {
        assert(text.subrange(0, k) =~= text);
    }
}

/// The text without leading and trailing Unicode `White_Space`, as
/// `str::trim` gives it.
pub(crate) fn trim_text(text: &str) -> (r: &str)
    ensures
        r@ == trimmed(text@),
{
    let n = text.unicode_len();
    let mut first: usize = 0;
    while first < n && is_white_space_char(text.get_char(first))
        invariant
            first <= n,
            n == text@.len(),
            forall|j: int| 0 <= j < first ==> is_white_space(#[trigger] text@[j]),
        decreases n - first,
    {
        first = first + 1;
    }
    let mut end: usize = n;
    while end > first && is_white_space_char(text.get_char(end - 1))
        invariant
            first <= end <= n,
            n == text@.len(),
            forall|j: int| end <= j < n ==> is_white_space(#[trigger] text@[j]),
        decreases end - first,
    {
        end = end - 1;
    }
    proof {
        let t = text@;
        lemma_trim_front_at(t, first as int);
        let rest = t.subrange(first as int, n as int);
        if rest.len() > 0 {
            assert(!is_white_space(rest[0]));
        }
        assert(trim_front(rest) == rest);
        assert forall|j: int| end - first <= j < rest.len() implies is_white_space(#[trigger] rest[j]) by {
            assert(rest[j] == t[first + j]);
        }
        lemma_trim_back_at(rest, end - first);
        let kept = rest.subrange(0, end - first);
        if kept.len() > 0 {
            assert(kept.last() == t[end - 1]);
            assert(!is_white_space(kept.last()));
        }
        assert(trim_back(kept) == kept);
        assert(kept =~= t.subrange(first as int, end as int));
    }
    text.substring_char(first, end)
}

/// `str::to_lowercase`. Its result is named by `lowercased`; nothing more is
/// claimed.
#[verifier::external_body]
pub(crate) fn lowercase_text(text: &str) -> (r: String)
    ensures
        r@ == lowercased(text@),
{
    text.to_lowercase()
}

/// `format!("{:?}", text)`: the text as `Debug` quotes it. Its result is
/// named by `debug_quoted`; nothing more is claimed.
#[verifier::external_body]
pub(crate) fn debug_quote_text(text: &str) -> (r: String)
    ensures
        r@ == debug_quoted(text@),
{
    format!("{:?}", text)
}

/// Decimal digits of `n`, most significant first.
pub open spec fn decimal_chars(n: nat) -> Seq<char>
    decreases n,
{
    if n < 10 {
        seq![digit_char(n)]
    } else {
        decimal_chars(n / 10).push(digit_char(n % 10))
    }
}

pub open spec fn digit_char(d: nat) -> char {
    if d == 0 { '0' }
    else if d == 1 { '1' }
    else if d == 2 { '2' }
    else if d == 3 { '3' }
    else if d == 4 { '4' }
    else if d == 5 { '5' }
    else if d == 6 { '6' }
    else if d == 7 { '7' }
    else if d == 8 { '8' }
    else { '9' }
}

fn digit_str(d: u64) -> (r: &'static str)
    requires
        d < 10,
    ensures
        r@ == seq![digit_char(d as nat)],
{
    proof {
        reveal_strlit("0");
        reveal_strlit("1");
        reveal_strlit("2");
        reveal_strlit("3");
        reveal_strlit("4");
        reveal_strlit("5");
        reveal_strlit("6");
        reveal_strlit("7");
        reveal_strlit("8");
        reveal_strlit("9");
    }
    if d == 0 { "0" }
    else if d == 1 { "1" }
    else if d == 2 { "2" }
    else if d == 3 { "3" }
    else if d == 4 { "4" }
    else if d == 5 { "5" }
    else if d == 6 { "6" }
    else if d == 7 { "7" }
    else if d == 8 { "8" }
    else { "9" }
}

/// The decimal text of `n` (what `n.to_string()` gives).
pub fn decimal_text(n: u64) -> (r: String)
    ensures
        r@ == decimal_chars(n as nat),
    decreases n,
{
    if n < 10 {
        String::from_str(digit_str(n))
    } else {
        let mut prefix = decimal_text(n / 10);
        prefix.append(digit_str(n % 10));
        prefix
    }
}

/// Result of comparing two texts character by character.
#[derive(Debug, Clone, Copy, PartialEq, Eq, Structural)]
pub enum TextOrder {
    Less,
    Equal,
    Greater,
}

/// Lexicographic order on Unicode scalar values (the order of `str` in Rust,
/// since UTF-8 preserves code point order).
pub open spec fn text_lt(a: Seq<char>, b: Seq<char>) -> bool
    decreases a.len(),
{
    if a.len() == 0 {
        b.len() > 0
    } else if b.len() == 0 {
        false
    } else if a[0] != b[0] {
        a[0] < b[0]
    } else {
        text_lt(a.drop_first(), b.drop_first())
    }
}

pub proof fn lemma_text_lt_irreflexive(a: Seq<char>)
    ensures
        !text_lt(a, a),
    decreases a.len(),
{
    if a.len() > 0 {
        lemma_text_lt_irreflexive(a.drop_first());
    }
}

pub proof fn lemma_text_lt_trichotomy(a: Seq<char>, b: Seq<char>)
    ensures
        text_lt(a, b) || text_lt(b, a) || a == b,
        !(text_lt(a, b) && text_lt(b, a)),
    decreases a.len(),
{
    if a.len() == 0 {
        if b.len() == 0 {
            assert(a =~= b);
        }
    } else if b.len() == 0 {
    } else if a[0] != b[0] {
    } else {
        lemma_text_lt_trichotomy(a.drop_first(), b.drop_first());
        if a.drop_first() == b.drop_first() {
            assert(a =~= seq![a[0]] + a.drop_first());
            assert(b =~= seq![b[0]] + b.drop_first());
        }
    }
}

pub proof fn lemma_text_lt_transitive(a: Seq<char>, b: Seq<char>, c: Seq<char>)
    requires
        text_lt(a, b),
        text_lt(b, c),
    ensures
        text_lt(a, c),
    decreases a.len(),
{
    if a.len() == 0 {
    } else if a[0] != b[0] {
        if b[0] != c[0] {
        } else {
        }
    } else if b[0] != c[0] {
    } else {
        lemma_text_lt_transitive(a.drop_first(), b.drop_first(), c.drop_first());
    }
}

/// Compares two texts in `str` order.
pub fn compare_text(a: &str, b: &str) -> (r: TextOrder)
    ensures
        (r == TextOrder::Less) == text_lt(a@, b@),
        (r == TextOrder::Greater) == text_lt(b@, a@),
        (r == TextOrder::Equal) == (a@ == b@),
{
    let a_len = a.unicode_len();
    let b_len = b.unicode_len();
    let mut i: usize = 0;
    proof {
        assert(a@.skip(0) =~= a@);
        assert(b@.skip(0) =~= b@);
        lemma_text_lt_trichotomy(a@, b@);
    }
    while i < a_len && i < b_len
        invariant
            a_len == a@.len(),
            b_len == b@.len(),
            i <= a_len,
            i <= b_len,
            a@.take(i as int) =~= b@.take(i as int),
            text_lt(a@, b@) == text_lt(a@.skip(i as int), b@.skip(i as int)),
            text_lt(b@, a@) == text_lt(b@.skip(i as int), a@.skip(i as int)),
        decreases a_len - i,
    {
        let ca = a.get_char(i);
        let cb = b.get_char(i);
        if ca != cb {
            proof {
                assert(a@.skip(i as int)[0] == ca);
                assert(b@.skip(i as int)[0] == cb);
                assert(a@ != b@) by {
                    assert(a@[i as int] != b@[i as int]);
                }
            }
            if ca < cb {
                return TextOrder::Less;
            } else {
                return TextOrder::Greater;
            }
        }
        proof {
            assert(a@.skip(i as int).drop_first() =~= a@.skip(i + 1));
            assert(b@.skip(i as int).drop_first() =~= b@.skip(i + 1));
            assert(a@.take(i + 1) =~= a@.take(i as int).push(ca));
            assert(b@.take(i + 1) =~= b@.take(i as int).push(cb));
        }
        i = i + 1;
    }
    if a_len == b_len {
        proof {
            assert(a@ =~= a@.take(i as int));
            assert(b@ =~= b@.take(i as int));
            lemma_text_lt_irreflexive(a@);
        }
        TextOrder::Equal
    } else if i == a_len {
        proof {
            assert(a@.skip(i as int).len() == 0);
            assert(a@ != b@);
        }
        TextOrder::Less
    } else {
        proof {
            assert(b@.skip(i as int).len() == 0);
            assert(a@ != b@);
        }
        TextOrder::Greater
    }
}

/// Whether `seq` is strictly increasing in text order.
pub open spec fn strictly_sorted(keys: Seq<Seq<char>>) -> bool {
    forall|i: int, j: int| 0 <= i < j < keys.len() ==> text_lt(#[trigger] keys[i], #[trigger] keys[j])
}

pub proof fn lemma_sorted_no_duplicates(keys: Seq<Seq<char>>)
    requires
        strictly_sorted(keys),
    ensures
        keys.no_duplicates(),
{
    assert forall|i: int, j: int| 0 <= i < keys.len() && 0 <= j < keys.len() && i != j implies keys[i]
        != keys[j] by {
        if i < j {
            lemma_text_lt_irreflexive(keys[i]);
        } else {
            lemma_text_lt_irreflexive(keys[j]);
        }
    }
}

/// A map from text keys to values kept in ascending key order, so that
/// iteration follows the order of a `BTreeMap<String, V>`.
#[derive(Debug, PartialEq)]
pub struct StrMap<V> {
    entries: Vec<(String, V)>,
}

impl<V> StrMap<V> {
    pub closed spec fn key_seq(&self) -> Seq<Seq<char>> {
        self.entries@.map_values(|e: (String, V)| e.0@)
    }

    pub closed spec fn value_seq(&self) -> Seq<V> {
        self.entries@.map_values(|e: (String, V)| e.1)
    }

    #[verifier::type_invariant]
    pub closed spec fn sorted(&self) -> bool {
        strictly_sorted(self.key_seq())
    }

    /// Index of `k` among the keys.
    pub open spec fn index_of_key(&self, k: Seq<char>) -> int {
        self.key_seq().index_of(k)
    }

    pub open spec fn has(&self, k: Seq<char>) -> bool {
        self.key_seq().contains(k)
    }

    /// The value stored for `k` (meaningful when `has(k)`).
    pub open spec fn lookup(&self, k: Seq<char>) -> V {
        self.value_seq()[self.index_of_key(k)]
    }

    /// The value for `k`, if any.
    pub open spec fn get_spec(&self, k: Seq<char>) -> Option<V> {
        if self.has(k) {
            Some(self.lookup(k))
        } else {
            None
        }
    }

    pub proof fn lemma_shape(&self)
        requires
            self.sorted(),
        ensures
            self.key_seq().len() == self.value_seq().len(),
            strictly_sorted(self.key_seq()),
            self.key_seq().no_duplicates(),
    {
        lemma_sorted_no_duplicates(self.key_seq());
    }

    pub proof fn lemma_index_of_at(&self, i: int)
        requires
            self.sorted(),
            0 <= i < self.key_seq().len(),
        ensures
            self.has(self.key_seq()[i]),
            self.index_of_key(self.key_seq()[i]) == i,
            self.lookup(self.key_seq()[i]) == self.value_seq()[i],
    {
        self.lemma_shape();
        let k = self.key_seq()[i];
        assert(self.key_seq().contains(k));
        self.key_seq().index_of_first_ensures(k);
        let j = self.key_seq().index_of(k);
        assert(self.key_seq()[j] == k);
    }

    pub proof fn lemma_has_index(&self, k: Seq<char>)
        requires
            self.has(k),
        ensures
            0 <= self.index_of_key(k) < self.key_seq().len(),
            self.key_seq()[self.index_of_key(k)] == k,
    {
        self.key_seq().index_of_first_ensures(k);
    }

    pub fn new() -> (r: Self)
        ensures
            r.key_seq().len() == 0,
            forall|k: Seq<char>| !#[trigger] r.has(k),
    {
        let entries: Vec<(String, V)> = Vec::new();
        assert(entries@.map_values(|e: (String, V)| e.0@) =~= Seq::<Seq<char>>::empty());
        let r = StrMap { entries };
        assert(r.key_seq() =~= Seq::<Seq<char>>::empty());
        r
    }

    pub fn len(&self) -> (n: usize)
        ensures
            n == self.key_seq().len(),
    {
        self.entries.len()
    }

    pub fn key_at(&self, i: usize) -> (k: &String)
        requires
            i < self.key_seq().len(),
        ensures
            k@ == self.key_seq()[i as int],
    {
        &self.entries[i].0
    }

    pub fn value_at(&self, i: usize) -> (v: &V)
        requires
            i < self.key_seq().len(),
        ensures
            *v == self.value_seq()[i as int],
    {
        proof {
            use_type_invariant(&*self);
            self.lemma_shape();
        }
        &self.entries[i].1
    }

    /// Position of `key`, if present.
    pub fn find(&self, key: &str) -> (r: Option<usize>)
        ensures
            r.is_some() == self.has(key@),
            r matches Some(i) ==> i == self.index_of_key(key@) && i < self.key_seq().len()
                && self.key_seq()[i as int] == key@,
    {
        proof {
            use_type_invariant(self);
        }
        let n = self.entries.len();
        let mut i: usize = 0;
        while i < n
            invariant
                n == self.key_seq().len(),
                self.sorted(),
                i <= n,
                forall|j: int| 0 <= j < i ==> self.key_seq()[j] != key@,
            decreases n - i,
        {
            let order = compare_text(self.entries[i].0.as_str(), key);
            if order == TextOrder::Equal {
                proof {
                    self.lemma_index_of_at(i as int);
                }
                return Some(i);
            }
            i = i + 1;
        }
        proof {
            if self.key_seq().contains(key@) {
                let j = choose|j: int| 0 <= j < self.key_seq().len() && self.key_seq()[j] == key@;
                assert(false);
            }
        }
        None
    }

    pub fn contains_key(&self, key: &str) -> (r: bool)
        ensures
            r == self.has(key@),
    {
        self.find(key).is_some()
    }

    pub fn get(&self, key: &str) -> (r: Option<&V>)
        ensures
            r.is_some() == self.has(key@),
            r matches Some(v) ==> *v == self.lookup(key@),
    {
        match self.find(key) {
            Some(i) => {
                proof {
                    use_type_invariant(self);
                    self.lemma_index_of_at(i as int);
                }
                Some(self.value_at(i))
            },
            None => None,
        }
    }

    /// Sets the value for `key`, replacing any previous value.
    pub fn insert(&mut self, key: String, value: V)
        ensures
            final(self).has(key@),
            final(self).lookup(key@) == value,
            forall|k: Seq<char>| k != key@ ==> #[trigger] final(self).get_spec(k) == old(self).get_spec(k),
            old(self).has(key@) ==> final(self).key_seq() == old(self).key_seq(),
            !old(self).has(key@) ==> final(self).key_seq().len() == old(self).key_seq().len() + 1,
    {
        match self.find(key.as_str()) {
            Some(i) => {
                let ghost old_self = *self;
                proof {
                    use_type_invariant(&*self);
                    self.lemma_shape();
                }
                let ghost kv = key@;
                let mut entries = Vec::new();
                std::mem::swap(&mut entries, &mut self.entries);
                entries.set(i, (key, value));
                proof {
                    assert(entries@.map_values(|e: (String, V)| e.0@) =~= old_self.key_seq());
                }
                self.entries = entries;
                proof {
                    use_type_invariant(&*self);
                    assert(self.key_seq() =~= old_self.key_seq());
                    assert(self.value_seq() =~= old_self.value_seq().update(i as int, value));
                    self.lemma_index_of_at(i as int);
                    assert forall|k: Seq<char>| k != kv implies #[trigger] self.get_spec(k)
                        == old_self.get_spec(k) by {
                        if self.has(k) {
                            self.lemma_has_index(k);
                            let j = self.index_of_key(k);
                            assert(j != i);
                        }
                    }
                }
            },
            None => {
                let _ = self.insert_new(key, value);
            },
        }
    }

    /// Inserts a new key in order. Returns `false` (and leaves the map
    /// unchanged) when the key is already present.
    pub fn insert_new(&mut self, key: String, value: V) -> (inserted: bool)
        ensures
            inserted == !old(self).has(key@),
            !inserted ==> *final(self) == *old(self),
            inserted ==> final(self).has(key@) && final(self).lookup(key@) == value,
            inserted ==> forall|k: Seq<char>|
                k != key@ ==> #[trigger] final(self).get_spec(k) == old(self).get_spec(k),
            inserted ==> final(self).key_seq().len() == old(self).key_seq().len() + 1,
    {
        proof {
            use_type_invariant(&*self);
            self.lemma_shape();
        }
        let n = self.entries.len();
        let mut pos: usize = 0;
        let mut stop = false;
        while pos < n && !stop
            invariant
                *self == *old(self),
                n == self.key_seq().len(),
                strictly_sorted(self.key_seq()),
                pos <= n,
                forall|j: int| 0 <= j < pos ==> text_lt(#[trigger] self.key_seq()[j], key@),
                stop ==> pos < n && text_lt(key@, self.key_seq()[pos as int]),
            decreases n - pos + (if stop { 0int } else { 1int }),
        {
            let order = compare_text(self.entries[pos].0.as_str(), key.as_str());
            if order == TextOrder::Equal {
                proof {
                    self.lemma_index_of_at(pos as int);
                }
                return false;
            }
            if order == TextOrder::Greater {
                stop = true;
            } else {
                pos = pos + 1;
            }
        }
        let ghost old_keys = self.key_seq();
        let ghost old_values = self.value_seq();
        let ghost old_self = *self;
        let ghost kv = key@;
        proof {
            assert forall|j: int| pos <= j < n implies text_lt(key@, #[trigger] old_keys[j]) by {
                if j > pos {
                    lemma_text_lt_transitive(key@, old_keys[pos as int], old_keys[j]);
                }
            }
            assert(!old_keys.contains(key@)) by {
                if old_keys.contains(key@) {
                    let j = choose|j: int| 0 <= j < old_keys.len() && old_keys[j] == key@;
                    lemma_text_lt_irreflexive(key@);
                }
            }
        }
        let mut entries = Vec::new();
        std::mem::swap(&mut entries, &mut self.entries);
        entries.insert(pos, (key, value));
        proof {
            let ks = entries@.map_values(|e: (String, V)| e.0@);
            assert(ks =~= old_keys.insert(pos as int, kv));
            assert forall|i: int, j: int| 0 <= i < j < ks.len() implies text_lt(
                #[trigger] ks[i],
                #[trigger] ks[j],
            ) by {
                if j < pos {
                } else if j == pos {
                } else if i < pos {
                    lemma_text_lt_transitive(ks[i], kv, ks[j]);
                } else if i == pos {
                } else {
                }
            }
        }
        self.entries = entries;
        proof {
            let ks = self.key_seq();
            assert(ks =~= old_keys.insert(pos as int, kv));
            assert(self.value_seq() =~= old_values.insert(pos as int, value));
            assert(strictly_sorted(ks)) by {
                assert forall|i: int, j: int| 0 <= i < j < ks.len() implies text_lt(
                    #[trigger] ks[i],
                    #[trigger] ks[j],
                ) by {
                    if j < pos {
                    } else if j == pos {
                    } else if i < pos {
                        lemma_text_lt_transitive(ks[i], kv, ks[j]);
                    } else if i == pos {
                    } else {
                    }
                }
            }
            use_type_invariant(&*self);
            self.lemma_index_of_at(pos as int);
            assert forall|k: Seq<char>| k != kv implies #[trigger] self.get_spec(k) == old_self.get_spec(
                k,
            ) by {
                if old_self.has(k) {
                    old_self.lemma_has_index(k);
                    let j = old_keys.index_of(k);
                    old_self.lemma_index_of_at(j);
                    if j < pos {
                        assert(ks[j] == k);
                        self.lemma_index_of_at(j);
                    } else {
                        assert(ks[j + 1] == k);
                        self.lemma_index_of_at(j + 1);
                    }
                }
                if self.has(k) {
                    self.lemma_has_index(k);
                    let j = ks.index_of(k);
                    if j < pos {
                        assert(old_keys[j] == k);
                    } else if j > pos {
                        assert(old_keys[j - 1] == k);
                    }
                }
            }
        }
        true
    }
}

impl<V: Clone> Clone for StrMap<V> {
    fn clone(&self) -> (r: Self)
        ensures
            r.key_seq() == self.key_seq(),
            r.value_seq().len() == self.value_seq().len(),
            forall|i: int| 0 <= i < r.value_seq().len() ==> cloned(self.value_seq()[i], #[trigger] r.value_seq()[i]),
    {
        proof {
            use_type_invariant(self);
        }
        let n = self.entries.len();
        let mut entries: Vec<(String, V)> = Vec::new();
        let mut i: usize = 0;
        while i < n
            invariant
                n == self.entries@.len(),
                i <= n,
                entries@.len() == i,
                strictly_sorted(self.key_seq()),
                forall|j: int| 0 <= j < i ==> #[trigger] entries@[j].0 == self.entries@[j].0,
                forall|j: int| 0 <= j < i ==> cloned(self.entries@[j].1, #[trigger] entries@[j].1),
            decreases n - i,
        {
            let k = self.entries[i].0.clone();
            let v = self.entries[i].1.clone();
            entries.push((k, v));
            i = i + 1;
        }
        proof {
            assert(entries@.map_values(|e: (String, V)| e.0@) =~= self.key_seq());
        }
        let r = StrMap { entries };
        assert(r.value_seq().len() == self.value_seq().len());
        r
    }
}

/// A set of texts kept in ascending order, iterated like a `BTreeSet<String>`.
#[derive(Debug)]
pub struct StrSet {
    items: Vec<String>,
}

impl StrSet {
    pub closed spec fn item_seq(&self) -> Seq<Seq<char>> {
        self.items@.map_values(|s: String| s@)
    }

    #[verifier::type_invariant]
    pub closed spec fn sorted(&self) -> bool {
        strictly_sorted(self.item_seq())
    }

    pub open spec fn view_set(&self) -> Set<Seq<char>> {
        self.item_seq().to_set()
    }

    pub proof fn lemma_shape(&self)
        requires
            self.sorted(),
        ensures
            strictly_sorted(self.item_seq()),
            self.item_seq().no_duplicates(),
    {
        lemma_sorted_no_duplicates(self.item_seq());
    }

    pub fn new() -> (r: Self)
        ensures
            r.item_seq().len() == 0,
            r.view_set() == Set::<Seq<char>>::empty(),
    {
        let items: Vec<String> = Vec::new();
        assert(items@.map_values(|s: String| s@) =~= Seq::<Seq<char>>::empty());
        let r = StrSet { items };
        assert(r.item_seq() =~= Seq::<Seq<char>>::empty());
        assert(r.view_set() =~= Set::<Seq<char>>::empty());
        r
    }

    pub fn len(&self) -> (n: usize)
        ensures
            n == self.item_seq().len(),
    {
        self.items.len()
    }

    pub fn is_empty(&self) -> (r: bool)
        ensures
            r == (self.item_seq().len() == 0),
    {
        self.items.len() == 0
    }

    pub fn item_at(&self, i: usize) -> (s: &String)
        requires
            i < self.item_seq().len(),
        ensures
            s@ == self.item_seq()[i as int],
    {
        &self.items[i]
    }

    pub fn contains(&self, item: &str) -> (r: bool)
        ensures
            r == self.item_seq().contains(item@),
            r == self.view_set().contains(item@),
    {
        let n = self.items.len();
        let mut i: usize = 0;
        while i < n
            invariant
                n == self.item_seq().len(),
                i <= n,
                forall|j: int| 0 <= j < i ==> self.item_seq()[j] != item@,
            decreases n - i,
        {
            if compare_text(self.items[i].as_str(), item) == TextOrder::Equal {
                assert(self.item_seq()[i as int] == item@);
                return true;
            }
            i = i + 1;
        }
        false
    }

    /// Adds `item`; returns whether it was new.
    pub fn insert(&mut self, item: String) -> (inserted: bool)
        ensures
            inserted == !old(self).item_seq().contains(item@),
            final(self).view_set() == old(self).view_set().insert(item@),
            final(self).item_seq().len() == old(self).item_seq().len() + (if inserted {
                1int
            } else {
                0int
            }),
    {
        proof {
            use_type_invariant(&*self);
            self.lemma_shape();
        }
        let n = self.items.len();
        let mut pos: usize = 0;
        let mut stop = false;
        while pos < n && !stop
            invariant
                *self == *old(self),
                n == self.item_seq().len(),
                strictly_sorted(self.item_seq()),
                pos <= n,
                forall|j: int| 0 <= j < pos ==> text_lt(#[trigger] self.item_seq()[j], item@),
                stop ==> pos < n && text_lt(item@, self.item_seq()[pos as int]),
            decreases n - pos + (if stop { 0int } else { 1int }),
        {
            let order = compare_text(self.items[pos].as_str(), item.as_str());
            if order == TextOrder::Equal {
                proof {
                    assert(self.item_seq()[pos as int] == item@);
                    assert(self.view_set().insert(item@) =~= self.view_set());
                }
                return false;
            }
            if order == TextOrder::Greater {
                stop = true;
            } else {
                pos = pos + 1;
            }
        }
        let ghost old_items = self.item_seq();
        let ghost iv = item@;
        proof {
            assert forall|j: int| pos <= j < n implies text_lt(item@, #[trigger] old_items[j]) by {
                if j > pos {
                    lemma_text_lt_transitive(item@, old_items[pos as int], old_items[j]);
                }
            }
            assert(!old_items.contains(item@)) by {
                if old_items.contains(item@) {
                    let j = choose|j: int| 0 <= j < old_items.len() && old_items[j] == item@;
                    lemma_text_lt_irreflexive(item@);
                }
            }
        }
        let mut items = Vec::new();
        std::mem::swap(&mut items, &mut self.items);
        items.insert(pos, item);
        proof {
            let ks = items@.map_values(|s: String| s@);
            assert(ks =~= old_items.insert(pos as int, iv));
            assert forall|i: int, j: int| 0 <= i < j < ks.len() implies text_lt(
                #[trigger] ks[i],
                #[trigger] ks[j],
            ) by {
                if j < pos {
                } else if j == pos {
                } else if i < pos {
                    lemma_text_lt_transitive(ks[i], iv, ks[j]);
                } else if i == pos {
                } else {
                }
            }
        }
        self.items = items;
        proof {
            let ks = self.item_seq();
            assert(ks =~= old_items.insert(pos as int, iv));
            assert forall|i: int, j: int| 0 <= i < j < ks.len() implies text_lt(
                #[trigger] ks[i],
                #[trigger] ks[j],
            ) by {
                if j < pos {
                } else if j == pos {
                } else if i < pos {
                    lemma_text_lt_transitive(ks[i], iv, ks[j]);
                } else if i == pos {
                } else {
                }
            }
            assert(ks.to_set() =~= old_items.to_set().insert(iv)) by {
                assert forall|x: Seq<char>| ks.to_set().contains(x) == old_items.to_set().insert(
                    iv,
                ).contains(x) by {
                    if ks.contains(x) {
                        let j = choose|j: int| 0 <= j < ks.len() && ks[j] == x;
                        if j < pos {
                            assert(old_items[j] == x);
                        } else if j > pos {
                            assert(old_items[j - 1] == x);
                        }
                    }
                    if old_items.contains(x) {
                        let j = choose|j: int| 0 <= j < old_items.len() && old_items[j] == x;
                        if j < pos {
                            assert(ks[j] == x);
                        } else {
                            assert(ks[j + 1] == x);
                        }
                    }
                    if x == iv {
                        assert(ks[pos as int] == x);
                    }
                }
            }
        }
        true
    }
}

impl Clone for StrSet {
    fn clone(&self) -> (r: Self)
        ensures
            r.item_seq() == self.item_seq(),
    {
        proof {
            use_type_invariant(self);
        }
        let n = self.items.len();
        let mut items: Vec<String> = Vec::new();
        let mut i: usize = 0;
        while i < n
            invariant
                n == self.items@.len(),
                i <= n,
                items@.len() == i,
                strictly_sorted(self.item_seq()),
                forall|j: int| 0 <= j < i ==> #[trigger] items@[j] == self.items@[j],
            decreases n - i,
        {
            items.push(self.items[i].clone());
            i = i + 1;
        }
        proof {
            assert(items@.map_values(|s: String| s@) =~= self.item_seq());
        }
        StrSet { items }
    }
}

/// Number of UTF-8 bytes of a text.
pub fn byte_len(text: &str) -> (n: usize)
    ensures
        n == encode_utf8(text@).len(),
{
    text.as_bytes().len()
}


} // verus!
