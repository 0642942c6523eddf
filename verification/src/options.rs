//! The options of a run: the `key=value` lists that option strings hold, the
//! output formats, the resize directive and the settings of each encoder.

use vstd::prelude::*;
use vstd::string::{StrSliceExecFns, StringExecFns};
use crate::error::ValueParseError;
use crate::resize::ResizeArgs;
use crate::single::Single;
use crate::number::{
    IntParseError,
    bool_error_text, bool_value, int_error_text, parse_bool, parse_u32, parse_u8, unsigned_value,
};
use crate::text::{
    chars_of, eq_lowercase, find_char, index_of, lemma_index_of_bounds, lowercase, str_eq, trim,
    trim_bounds,
};

verus! {

/// A key with its value, as characters.
pub type Pair = (Seq<char>, Seq<char>);

/// The pair that one item of a list spells: what stands before the first `=` is the
/// key, what follows it the value, both without surrounding white space. An item
/// without `=`, or with an empty key, spells none.
pub open spec fn pair_of(item: Seq<char>) -> Option<Pair> {
    let i = index_of(item, '=');
    if i == item.len() {
        None
    } else {
        let key = trim(item.take(i));
        if key.len() == 0 {
            None
        } else {
            Some((key, trim(item.skip(i + 1))))
        }
    }
}

/// The pairs that a list spells, in its order. Commas part the items.
pub open spec fn pairs_of(input: Seq<char>) -> Seq<Pair>
    decreases input.len(),
{
    let i = index_of(input, ',');
    let head = match pair_of(input.take(i)) {
        Some(p) => seq![p],
        None => Seq::<Pair>::empty(),
    };
    if 0 <= i < input.len() {
        head + pairs_of(input.skip(i + 1))
    } else {
        head
    }
}

/// What a list gives to each of its keys.
pub type Entries = Map<Seq<char>, Seq<char>>;

/// What `pairs` give to each key: the value of the last pair with that key.
pub open spec fn map_of(pairs: Seq<Pair>) -> Entries
    decreases pairs.len(),
{
    if pairs.len() == 0 {
        Map::empty()
    } else {
        map_of(pairs.drop_last()).insert(pairs.last().0, pairs.last().1)
    }
}

/// What a list gives to each of its keys: where a key stands again, its value
/// replaces what the key had.
pub open spec fn entries_of(input: Seq<char>) -> Entries {
    map_of(pairs_of(input))
}

/// The value that `entries` give to `key`, if they give it one.
pub open spec fn value_of(entries: Entries, key: Seq<char>) -> Option<Seq<char>> {
    if entries.dom().contains(key) {
        Some(entries[key])
    } else {
        None
    }
}

/// The value that `entries` give to `key`, or `default` where they give none.
pub open spec fn value_or(entries: Entries, key: Seq<char>, default: Seq<char>) -> Seq<char> {
    match value_of(entries, key) {
        Some(value) => value,
        None => default,
    }
}

/// Whether no key stands twice in `pairs`.
pub open spec fn keys_differ(pairs: Seq<Pair>) -> bool {
    forall|i: int, j: int| 0 <= i < j < pairs.len() ==> pairs[i].0 != pairs[j].0
}

/// Where no key stands twice, each pair is what the pairs give to its key.
pub proof fn lemma_map_of_has(pairs: Seq<Pair>, i: int)
    requires
        keys_differ(pairs),
        0 <= i < pairs.len(),
    ensures
        value_of(map_of(pairs), pairs[i].0) == Some(pairs[i].1),
    decreases pairs.len(),
{
    if i < pairs.len() - 1 {
        let rest = pairs.drop_last();
        assert(keys_differ(rest)) by {
            assert forall|a: int, b: int| 0 <= a < b < rest.len() implies rest[a].0 != rest[b].0 by {
                assert(rest[a] == pairs[a] && rest[b] == pairs[b]);
            }
        }
        lemma_map_of_has(rest, i);
        assert(rest[i] == pairs[i]);
        assert(pairs[i].0 != pairs[pairs.len() - 1].0);
    }
}

/// A key that stands in no pair is given no value.
pub proof fn lemma_map_of_lacks(pairs: Seq<Pair>, key: Seq<char>)
    requires
        forall|i: int| 0 <= i < pairs.len() ==> pairs[i].0 != key,
    ensures
        value_of(map_of(pairs), key) is None,
    decreases pairs.len(),
{
    if pairs.len() > 0 {
        let rest = pairs.drop_last();
        assert forall|i: int| 0 <= i < rest.len() implies rest[i].0 != key by {
            assert(rest[i] == pairs[i]);
        }
        lemma_map_of_lacks(rest, key);
        assert(pairs[pairs.len() - 1].0 != key);
    }
}

/// Where no key stands twice, a new value for the key of a pair is a new value
/// in what the pairs give, and still no key stands twice.
pub proof fn lemma_map_of_update(pairs: Seq<Pair>, i: int, value: Seq<char>)
    requires
        keys_differ(pairs),
        0 <= i < pairs.len(),
    ensures
        map_of(pairs.update(i, (pairs[i].0, value))) == map_of(pairs).insert(pairs[i].0, value),
        keys_differ(pairs.update(i, (pairs[i].0, value))),
    decreases pairs.len(),
{
    let key = pairs[i].0;
    let changed = pairs.update(i, (key, value));
    let rest = pairs.drop_last();
    let last = pairs.len() - 1;
    assert(keys_differ(changed)) by {
        assert forall|a: int, b: int| 0 <= a < b < changed.len() implies changed[a].0
            != changed[b].0 by {
            assert(changed[a].0 == pairs[a].0 && changed[b].0 == pairs[b].0);
        }
    }
    if i == last {
        assert(changed.drop_last() =~= rest);
        assert(map_of(changed) =~= map_of(pairs).insert(key, value));
    } else {
        assert(keys_differ(rest)) by {
            assert forall|a: int, b: int| 0 <= a < b < rest.len() implies rest[a].0 != rest[b].0 by {
                assert(rest[a] == pairs[a] && rest[b] == pairs[b]);
            }
        }
        lemma_map_of_update(rest, i, value);
        assert(rest[i] == pairs[i]);
        assert(changed.drop_last() =~= rest.update(i, (key, value)));
        assert(changed.last() == pairs.last());
        assert(pairs[i].0 != pairs[last].0);
        assert(map_of(changed) =~= map_of(pairs).insert(key, value));
    }
}

/// Where no key stands twice, the pairs give values to as many keys as there
/// are pairs.
pub proof fn lemma_map_of_len(pairs: Seq<Pair>)
    requires
        keys_differ(pairs),
    ensures
        map_of(pairs).dom().finite(),
        map_of(pairs).dom().len() == pairs.len(),
    decreases pairs.len(),
{
    if pairs.len() > 0 {
        let rest = pairs.drop_last();
        assert(keys_differ(rest)) by {
            assert forall|a: int, b: int| 0 <= a < b < rest.len() implies rest[a].0 != rest[b].0 by {
                assert(rest[a] == pairs[a] && rest[b] == pairs[b]);
            }
        }
        lemma_map_of_len(rest);
        assert forall|i: int| 0 <= i < rest.len() implies rest[i].0 != pairs.last().0 by {
            assert(rest[i] == pairs[i]);
        }
        lemma_map_of_lacks(rest, pairs.last().0);
        assert(map_of(pairs).dom() =~= map_of(rest).dom().insert(pairs.last().0));
    }
}

/// What a `key=value` list gives to its keys. No key stands twice: a key that
/// occurs again replaces what it had.
#[derive(Debug)]
pub struct KeyValues {
    entries: Vec<(String, String)>,
}

impl View for KeyValues {
    type V = Entries;

    closed spec fn view(&self) -> Entries {
        map_of(self.pairs())
    }
}

impl KeyValues {
    /// The keys with their values, in the order in which the keys came first.
    pub closed spec fn pairs(&self) -> Seq<Pair> {
        Seq::new(self.entries@.len(), |i: int| (self.entries@[i].0@, self.entries@[i].1@))
    }

    #[verifier::type_invariant]
    spec fn no_key_twice(self) -> bool {
        keys_differ(self.pairs())
    }

    /// The list that gives no key a value.
    pub fn new() -> (kv: Self)
        ensures
            kv@ == Map::<Seq<char>, Seq<char>>::empty(),
    {
        let kv = KeyValues { entries: Vec::new() };
        assert(kv.pairs() =~= Seq::<Pair>::empty());
        kv
    }

    /// Where `key` stands, if it does.
    fn position(&self, key: &str) -> (r: Option<usize>)
        ensures
            match r {
                Some(i) => i < self.pairs().len() && self.pairs()[i as int].0 == key@,
                None => forall|i: int| 0 <= i < self.pairs().len() ==> self.pairs()[i].0 != key@,
            },
    {
        let mut j: usize = 0;
        while j < self.entries.len()
            invariant
                j <= self.entries.len(),
                forall|i: int| 0 <= i < j ==> self.pairs()[i].0 != key@,
            decreases self.entries.len() - j,
        {
            if str_eq(self.entries[j].0.as_str(), key) {
                return Some(j);
            }
            j += 1;
        }
        None
    }

    /// The value of `key`, if the list gives it one.
    pub fn get(&self, key: &str) -> (r: Option<&str>)
        ensures
            match r {
                Some(value) => value_of(self@, key@) == Some(value@),
                None => value_of(self@, key@) is None,
            },
    {
        proof {
            use_type_invariant(self);
        }
        match self.position(key) {
            Some(i) => {
                proof {
                    lemma_map_of_has(self.pairs(), i as int);
                }
                Some(self.entries[i].1.as_str())
            },
            None => {
                proof {
                    lemma_map_of_lacks(self.pairs(), key@);
                }
                None
            },
        }
    }

    /// The value of `key`, or `default` where the list gives it none.
    pub fn get_or<'a>(&'a self, key: &str, default: &'a str) -> (r: &'a str)
        ensures
            r@ == value_or(self@, key@, default@),
    {
        match self.get(key) {
            Some(value) => value,
            None => default,
        }
    }

    /// The number of keys that the list gives a value.
    pub fn len(&self) -> (r: usize)
        ensures
            self@.dom().finite(),
            r == self@.dom().len(),
    {
        proof {
            use_type_invariant(self);
            lemma_map_of_len(self.pairs());
        }
        self.entries.len()
    }

    /// The list in which `key` has the value `value`, in place of what it had.
    pub fn with(self, key: String, value: String) -> (kv: Self)
        ensures
            kv@ == self@.insert(key@, value@),
    {
        proof {
            use_type_invariant(&self);
        }
        let ghost before = self.pairs();
        let position = self.position(key.as_str());
        let mut entries = self.entries;
        match position {
            Some(i) => {
                proof {
                    lemma_map_of_update(before, i as int, value@);
                }
                entries.set(i, (key, value));
                let ghost after = Seq::new(
                    entries@.len(),
                    |i: int| (entries@[i].0@, entries@[i].1@),
                );
                assert(after =~= before.update(i as int, (before[i as int].0, value@)));
                let kv = KeyValues { entries };
                assert(kv.pairs() =~= after);
                kv
            },
            None => {
                entries.push((key, value));
                let ghost after = Seq::new(
                    entries@.len(),
                    |i: int| (entries@[i].0@, entries@[i].1@),
                );
                assert(after =~= before.push((key@, value@)));
                assert(after.drop_last() =~= before);
                assert(keys_differ(after)) by {
                    assert forall|a: int, b: int| 0 <= a < b < after.len() implies after[a].0
                        != after[b].0 by {
                        if b < before.len() {
                            assert(after[a] == before[a] && after[b] == before[b]);
                        } else {
                            assert(after[a] == before[a]);
                        }
                    }
                }
                let kv = KeyValues { entries };
                assert(kv.pairs() =~= after);
                kv
            },
        }
    }
}

/// Reads a list of the form `key=value,key=value`.
pub fn parse_kv(input: &str) -> (kv: KeyValues)
    ensures
        kv@ == entries_of(input@),
{
    let v = chars_of(input);
    let n = v.len();
    let mut kv = KeyValues::new();
    let ghost mut seen = Seq::<Pair>::empty();
    let mut pos: usize = 0;
    let mut done = false;
    assert(v@.skip(0) =~= v@);
    assert(seen + pairs_of(v@) =~= pairs_of(v@));
    while !done
        invariant
            pos <= n == v.len(),
            v@ == input@,
            kv@ == map_of(seen),
            done ==> seen == pairs_of(v@),
            !done ==> pairs_of(v@) == seen + pairs_of(v@.skip(pos as int)),
        decreases
                (if done {
                    0int
                } else {
                    n - pos + 1
                }),
    {
        let ghost rest = v@.skip(pos as int);
        let ghost before = seen;
        assert(rest =~= v@.subrange(pos as int, n as int));
        let end = find_char(&v, pos, n, ',');
        let ghost item = v@.subrange(pos as int, end as int);
        assert(rest.take(end - pos) =~= item);
        let eq = find_char(&v, pos, end, '=');
        proof {
            lemma_index_of_bounds(item, '=');
            assert(item.take(eq - pos) =~= v@.subrange(pos as int, eq as int));
            if eq < end {
                assert(item.skip(eq - pos + 1) =~= v@.subrange(eq + 1, end as int));
            }
        }
        if eq < end {
            let key = trim_bounds(&v, pos, eq);
            let value = trim_bounds(&v, eq + 1, end);
            if key.0 < key.1 {
                let k = input.substring_char(key.0, key.1).to_owned();
                let w = input.substring_char(value.0, value.1).to_owned();
                kv = kv.with(k, w);
                proof {
                    seen = before.push(pair_of(item)->0);
                    assert(seen.drop_last() =~= before);
                }
            }
        }
        assert(seen =~= before + (match pair_of(item) {
            Some(p) => seq![p],
            None => Seq::<Pair>::empty(),
        }));
        if end == n {
            done = true;
        } else {
            assert(rest.skip(end - pos + 1) =~= v@.skip(end + 1));
            pos = end + 1;
        }
    }
    kv
}

/// Whether `r` is the result that `expected` describes: the same value, or an error
/// with the same text.
pub open spec fn agrees<T>(r: Result<T, ValueParseError>, expected: Result<T, Seq<char>>) -> bool {
    match r {
        Ok(v) => expected == Ok::<T, Seq<char>>(v),
        Err(e) => expected == Err::<T, Seq<char>>(e@),
    }
}

/// What is said of a word that names no value of an option.
pub open spec fn invalid_value_text(s: Seq<char>) -> Seq<char> {
    "Invalid value '"@ + s + "'"@
}

/// The number of 32 bits that `text` spells, or what is said of it.
pub open spec fn u32_of(text: Seq<char>) -> Result<u32, Seq<char>> {
    match unsigned_value(text, u32::MAX as nat) {
        Ok(v) => Ok(v as u32),
        Err(e) => Err("ParseIntErr: "@ + int_error_text(e)),
    }
}

/// The number of 8 bits that `text` spells, or what is said of it.
pub open spec fn u8_of(text: Seq<char>) -> Result<u8, Seq<char>> {
    match unsigned_value(text, u8::MAX as nat) {
        Ok(v) => Ok(v as u8),
        Err(e) => Err("ParseIntErr: "@ + int_error_text(e)),
    }
}

/// The truth value that `text` spells, or what is said of it.
pub open spec fn bool_of(text: Seq<char>) -> Result<bool, Seq<char>> {
    match bool_value(text) {
        Some(b) => Ok(b),
        None => Err("ParseBoolErr: "@ + bool_error_text()),
    }
}

fn invalid_value(s: &str) -> (e: ValueParseError)
    ensures
        e@ == invalid_value_text(s@),
{
    let mut msg = "Invalid value '".to_owned();
    msg.append(s);
    msg.append("'");
    ValueParseError::new(msg)
}

fn read_u32(text: &str) -> (r: Result<u32, ValueParseError>)
    ensures
        agrees(r, u32_of(text@)),
{
    match parse_u32(text) {
        Ok(v) => Ok(v),
        Err(e) => Err(ValueParseError::from_int_error(e)),
    }
}

fn read_u8(text: &str) -> (r: Result<u8, ValueParseError>)
    ensures
        agrees(r, u8_of(text@)),
{
    match parse_u8(text) {
        Ok(v) => Ok(v),
        Err(e) => Err(ValueParseError::from_int_error(e)),
    }
}

fn read_bool(text: &str) -> (r: Result<bool, ValueParseError>)
    ensures
        agrees(r, bool_of(text@)),
{
    match parse_bool(text) {
        Some(b) => Ok(b),
        None => Err(ValueParseError::from_bool_error()),
    }
}

/// The image formats that the tool writes.
#[derive(Copy, Clone, Debug, PartialEq, Eq, Structural)]
pub enum OutputFormatTypes {
    Jpeg,
    Png,
    Gif,
    WebP,
    Tiff,
}

impl OutputFormatTypes {
    /// The format that `s` names, letter case aside.
    pub open spec fn named(s: Seq<char>) -> Option<Self> {
        let word = lowercase(s);
        if word == "jpeg"@ || word == "jpg"@ {
            Some(Self::Jpeg)
        } else if word == "png"@ {
            Some(Self::Png)
        } else if word == "gif"@ {
            Some(Self::Gif)
        } else if word == "webp"@ {
            Some(Self::WebP)
        } else if word == "tiff"@ {
            Some(Self::Tiff)
        } else {
            None
        }
    }

    pub open spec fn parsed(s: Seq<char>) -> Result<Self, Seq<char>> {
        match Self::named(s) {
            Some(v) => Ok(v),
            None => Err(invalid_value_text(s)),
        }
    }

    pub fn from_str(s: &str) -> (r: Result<Self, ValueParseError>)
        ensures
            agrees(r, Self::parsed(s@)),
    {
        if eq_lowercase(s, "jpeg") || eq_lowercase(s, "jpg") {
            Ok(Self::Jpeg)
        } else if eq_lowercase(s, "png") {
            Ok(Self::Png)
        } else if eq_lowercase(s, "gif") {
            Ok(Self::Gif)
        } else if eq_lowercase(s, "webp") {
            Ok(Self::WebP)
        } else if eq_lowercase(s, "tiff") {
            Ok(Self::Tiff)
        } else {
            Err(invalid_value(s))
        }
    }
}

impl std::str::FromStr for OutputFormatTypes {
    type Err = ValueParseError;

    /// What `parse` gives for `s`: the same as the function of this name above.
    fn from_str(s: &str) -> (r: Result<Self, Self::Err>)
        ensures
            agrees(r, OutputFormatTypes::parsed(s@)),
    {
        OutputFormatTypes::from_str(s)
    }
}

/// How the target size of an image is decided.
#[derive(Copy, Clone, Debug, PartialEq, Eq, Structural)]
pub enum ResizeRule {
    /// The image keeps its size.
    NoResize,
    /// Width and height are given in pixels.
    Size,
    /// Width and height are fractions of what they were.
    Scale,
    /// The shorter side is given in pixels.
    ShortEdge,
    /// The longer side is given in pixels.
    LongEdge,
    /// The width is given in pixels.
    Width,
    /// The height is given in pixels.
    Height,
}

impl ResizeRule {
    /// The rule that `s` names, letter case aside.
    pub open spec fn named(s: Seq<char>) -> Option<Self> {
        let word = lowercase(s);
        if word == "no_resize"@ {
            Some(Self::NoResize)
        } else if word == "size"@ {
            Some(Self::Size)
        } else if word == "scale"@ {
            Some(Self::Scale)
        } else if word == "short_edge"@ {
            Some(Self::ShortEdge)
        } else if word == "long_edge"@ {
            Some(Self::LongEdge)
        } else if word == "width"@ {
            Some(Self::Width)
        } else if word == "height"@ {
            Some(Self::Height)
        } else {
            None
        }
    }

    pub open spec fn parsed(s: Seq<char>) -> Result<Self, Seq<char>> {
        match Self::named(s) {
            Some(v) => Ok(v),
            None => Err(invalid_value_text(s)),
        }
    }

    pub fn from_str(s: &str) -> (r: Result<Self, ValueParseError>)
        ensures
            agrees(r, Self::parsed(s@)),
    {
        if eq_lowercase(s, "no_resize") {
            Ok(Self::NoResize)
        } else if eq_lowercase(s, "size") {
            Ok(Self::Size)
        } else if eq_lowercase(s, "scale") {
            Ok(Self::Scale)
        } else if eq_lowercase(s, "short_edge") {
            Ok(Self::ShortEdge)
        } else if eq_lowercase(s, "long_edge") {
            Ok(Self::LongEdge)
        } else if eq_lowercase(s, "width") {
            Ok(Self::Width)
        } else if eq_lowercase(s, "height") {
            Ok(Self::Height)
        } else {
            Err(invalid_value(s))
        }
    }
}

impl std::str::FromStr for ResizeRule {
    type Err = ValueParseError;

    /// What `parse` gives for `s`: the same as the function of this name above.
    fn from_str(s: &str) -> (r: Result<Self, Self::Err>)
        ensures
            agrees(r, ResizeRule::parsed(s@)),
    {
        ResizeRule::from_str(s)
    }
}

/// A resize directive as an option string spells it: `rule:key=value,key=value`.
/// The numbers that may have a fraction are kept as the text that spells them,
/// and only those that the rule reads.
#[derive(Debug)]
pub struct ResizeRequest {
    pub rule: ResizeRule,
    pub edge_size: u32,
    pub donot_enlarge: bool,
    pub keep_aspect_ratio: bool,
    /// The value of `w`, where the rule reads it.
    pub width: Option<String>,
    /// The value of `h`, where the rule reads it.
    pub height: Option<String>,
    /// The value of `ratio`, where the rule reads it.
    pub ratio: Option<String>,
}

/// A resize request, with its texts as characters.
pub struct ResizeRequestView {
    pub rule: ResizeRule,
    pub edge_size: u32,
    pub donot_enlarge: bool,
    pub keep_aspect_ratio: bool,
    pub width: Option<Seq<char>>,
    pub height: Option<Seq<char>>,
    pub ratio: Option<Seq<char>>,
}

pub open spec fn text_view(t: Option<String>) -> Option<Seq<char>> {
    match t {
        Some(s) => Some(s@),
        None => None,
    }
}

impl View for ResizeRequest {
    type V = ResizeRequestView;

    open spec fn view(&self) -> ResizeRequestView {
        ResizeRequestView {
            rule: self.rule,
            edge_size: self.edge_size,
            donot_enlarge: self.donot_enlarge,
            keep_aspect_ratio: self.keep_aspect_ratio,
            width: text_view(self.width),
            height: text_view(self.height),
            ratio: text_view(self.ratio),
        }
    }
}

/// What a rule reads of a list: the edge size, and the texts of `w`, `h` and `ratio`.
pub struct Operands {
    pub edge_size: u32,
    pub width: Option<Seq<char>>,
    pub height: Option<Seq<char>>,
    pub ratio: Option<Seq<char>>,
}

/// The truth value that `pairs` give to `key`, or `default` where they give none.
pub open spec fn flag_of(pairs: Entries, key: Seq<char>, default: bool) -> Result<
    bool,
    Seq<char>,
> {
    match value_of(pairs, key) {
        Some(text) => bool_of(text),
        None => Ok(default),
    }
}

/// What `rule` reads of `pairs`, or what is said where the list lacks it:
/// `Size` reads `w` and `h`; `Scale` reads `ratio`, or else `w` and `h`;
/// `ShortEdge` and `LongEdge` read `edge_size`, a number of 32 bits;
/// `Width` reads `w` and `Height` reads `h`.
pub open spec fn operands_of(rule: ResizeRule, pairs: Entries) -> Result<Operands, Seq<char>> {
    let w = value_of(pairs, "w"@);
    let h = value_of(pairs, "h"@);
    let ratio = value_of(pairs, "ratio"@);
    let none = Operands { edge_size: 0, width: None, height: None, ratio: None };
    match rule {
        ResizeRule::NoResize => Ok(none),
        ResizeRule::Size => if w is None || h is None {
            Err("width and height is required when resize rule is `size`"@)
        } else {
            Ok(Operands { width: w, height: h, ..none })
        },
        ResizeRule::Scale => if ratio is Some {
            Ok(Operands { ratio: ratio, ..none })
        } else if w is None || h is None {
            Err(
                "width and height is required when resize rule is `scale` and `ratio` is not set."@,
            )
        } else {
            Ok(Operands { width: w, height: h, ..none })
        },
        ResizeRule::ShortEdge | ResizeRule::LongEdge => match value_of(pairs, "edge_size"@) {
            None => Err("edge_size is required when resize rule is `short_edge` or `long_edge`"@),
            Some(text) => match u32_of(text) {
                Err(e) => Err(e),
                Ok(edge_size) => Ok(Operands { edge_size: edge_size, ..none }),
            },
        },
        ResizeRule::Width => if w is None {
            Err("width is required when resize rule is `width`"@)
        } else {
            Ok(Operands { width: w, ..none })
        },
        ResizeRule::Height => if h is None {
            Err("height is required when resize rule is `height`"@)
        } else {
            Ok(Operands { height: h, ..none })
        },
    }
}

/// The name of the rule in a directive: what stands before the first colon.
pub open spec fn rule_part(s: Seq<char>) -> Seq<char> {
    s.take(index_of(s, ':'))
}

/// The list in a directive: what follows the first colon.
pub open spec fn list_part(s: Seq<char>) -> Seq<char> {
    let i = index_of(s, ':');
    if 0 <= i < s.len() {
        s.skip(i + 1)
    } else {
        Seq::<char>::empty()
    }
}

fn owned(t: Option<&str>) -> (r: Option<String>)
    ensures
        match t {
            Some(s) => text_view(r) == Some(s@),
            None => r is None,
        },
{
    match t {
        Some(s) => Some(s.to_owned()),
        None => None,
    }
}

fn read_flag(kv: &KeyValues, key: &str, default: bool) -> (r: Result<bool, ValueParseError>)
    ensures
        agrees(r, flag_of(kv@, key@, default)),
{
    match kv.get(key) {
        Some(text) => read_bool(text),
        None => Ok(default),
    }
}

impl ResizeRequest {
    /// The request that `s` spells. The rule is read first, then `donot_enlarge`
    /// (`false` if left out) and `keep_aspect_ratio` (`true`), then what the rule
    /// reads; the first of these that fails decides the error.
    pub open spec fn parsed(s: Seq<char>) -> Result<ResizeRequestView, Seq<char>> {
        let pairs = entries_of(list_part(s));
        match ResizeRule::parsed(rule_part(s)) {
            Err(e) => Err(e),
            Ok(rule) => match flag_of(pairs, "donot_enlarge"@, false) {
                Err(e) => Err(e),
                Ok(donot_enlarge) => match flag_of(pairs, "keep_aspect_ratio"@, true) {
                    Err(e) => Err(e),
                    Ok(keep_aspect_ratio) => match operands_of(rule, pairs) {
                        Err(e) => Err(e),
                        Ok(operands) => Ok(
                            ResizeRequestView {
                                rule,
                                edge_size: operands.edge_size,
                                donot_enlarge,
                                keep_aspect_ratio,
                                width: operands.width,
                                height: operands.height,
                                ratio: operands.ratio,
                            },
                        ),
                    },
                },
            },
        }
    }

    pub fn from_str(s: &str) -> (r: Result<Self, ValueParseError>)
        ensures
            match r {
                Ok(v) => Self::parsed(s@) == Ok::<ResizeRequestView, Seq<char>>(v@),
                Err(e) => Self::parsed(s@) == Err::<ResizeRequestView, Seq<char>>(e@),
            },
    {
        let v = chars_of(s);
        let n = v.len();
        assert(v@.subrange(0, n as int) =~= s@);
        let colon = find_char(&v, 0, n, ':');
        let list = if colon < n {
            s.substring_char(colon + 1, n)
        } else {
            s.substring_char(n, n)
        };
        assert(s@.subrange(0, colon as int) =~= rule_part(s@));
        assert(list@ =~= list_part(s@));
        let rule = match ResizeRule::from_str(s.substring_char(0, colon)) {
            Ok(v) => v,
            Err(e) => { return Err(e); },
        };
        let args_map = parse_kv(list);
        let donot_enlarge = match read_flag(&args_map, "donot_enlarge", false) {
            Ok(v) => v,
            Err(e) => { return Err(e); },
        };
        let keep_aspect_ratio = match read_flag(&args_map, "keep_aspect_ratio", true) {
            Ok(v) => v,
            Err(e) => { return Err(e); },
        };
        let width_arg = args_map.get("w");
        let height_arg = args_map.get("h");
        let ratio_arg = args_map.get("ratio");
        let mut request = ResizeRequest {
            rule,
            edge_size: 0,
            donot_enlarge,
            keep_aspect_ratio,
            width: None,
            height: None,
            ratio: None,
        };
        match rule {
            ResizeRule::NoResize => {},
            ResizeRule::Size => {
                if width_arg.is_none() || height_arg.is_none() {
                    return Err(
                        ValueParseError::from_text(
                            "width and height is required when resize rule is `size`",
                        ),
                    );
                }
                request.width = owned(width_arg);
                request.height = owned(height_arg);
            },
            ResizeRule::Scale => {
                if ratio_arg.is_some() {
                    request.ratio = owned(ratio_arg);
                } else if width_arg.is_none() || height_arg.is_none() {
                    return Err(
                        ValueParseError::from_text(
                            "width and height is required when resize rule is `scale` and `ratio` is not set.",
                        ),
                    );
                } else {
                    request.width = owned(width_arg);
                    request.height = owned(height_arg);
                }
            },
            ResizeRule::ShortEdge | ResizeRule::LongEdge => {
                match args_map.get("edge_size") {
                    None => {
                        return Err(
                            ValueParseError::from_text(
                                "edge_size is required when resize rule is `short_edge` or `long_edge`",
                            ),
                        );
                    },
                    Some(text) => match read_u32(text) {
                        Ok(v) => { request.edge_size = v; },
                        Err(e) => { return Err(e); },
                    },
                }
            },
            ResizeRule::Width => {
                if width_arg.is_none() {
                    return Err(
                        ValueParseError::from_text("width is required when resize rule is `width`"),
                    );
                }
                request.width = owned(width_arg);
            },
            ResizeRule::Height => {
                if height_arg.is_none() {
                    return Err(
                        ValueParseError::from_text(
                            "height is required when resize rule is `height`",
                        ),
                    );
                }
                request.height = owned(height_arg);
            },
        }
        Ok(request)
    }

    /// The directive of this request, once its texts are read: `width`, `height`
    /// and `ratio` are the numbers that the texts of the request spell. A number
    /// whose text the request lacks is not looked at; the directive has zero there.
    pub fn complete(&self, width: Single, height: Single, ratio: Single) -> (args: ResizeArgs)
        ensures
            args.rule == self.rule,
            args.edge_size == self.edge_size,
            args.donot_enlarge == self.donot_enlarge,
            args.keep_aspect_ratio == self.keep_aspect_ratio,
            args.width.bits == (if self.width is Some {
                width.bits
            } else {
                0
            }),
            args.height.bits == (if self.height is Some {
                height.bits
            } else {
                0
            }),
            args.ratio.bits == (if self.ratio is Some {
                ratio.bits
            } else {
                0
            }),
    {
        let zero = Single { bits: 0 };
        ResizeArgs {
            rule: self.rule,
            edge_size: self.edge_size,
            width: if self.width.is_some() {
                width
            } else {
                zero
            },
            height: if self.height.is_some() {
                height
            } else {
                zero
            },
            ratio: if self.ratio.is_some() {
                ratio
            } else {
                zero
            },
            donot_enlarge: self.donot_enlarge,
            keep_aspect_ratio: self.keep_aspect_ratio,
        }
    }
}

/// How the colour channels of a JPEG image are sampled.
#[derive(Copy, Clone, Debug, PartialEq, Eq, Structural)]
pub enum ChromaSubsampling {
    CS444,
    CS422,
    CS420,
    CS411,
    Auto,
}

impl ChromaSubsampling {
    /// The sampling that `s` names, letter case aside.
    pub open spec fn named(s: Seq<char>) -> Option<Self> {
        let word = lowercase(s);
        if word == "cs444"@ {
            Some(Self::CS444)
        } else if word == "cs422"@ {
            Some(Self::CS422)
        } else if word == "cs420"@ {
            Some(Self::CS420)
        } else if word == "cs411"@ {
            Some(Self::CS411)
        } else if word == "auto"@ {
            Some(Self::Auto)
        } else {
            None
        }
    }

    pub open spec fn parsed(s: Seq<char>) -> Result<Self, Seq<char>> {
        match Self::named(s) {
            Some(v) => Ok(v),
            None => Err(invalid_value_text(s)),
        }
    }

    pub fn from_str(s: &str) -> (r: Result<Self, ValueParseError>)
        ensures
            agrees(r, Self::parsed(s@)),
    {
        if eq_lowercase(s, "cs444") {
            Ok(Self::CS444)
        } else if eq_lowercase(s, "cs422") {
            Ok(Self::CS422)
        } else if eq_lowercase(s, "cs420") {
            Ok(Self::CS420)
        } else if eq_lowercase(s, "cs411") {
            Ok(Self::CS411)
        } else if eq_lowercase(s, "auto") {
            Ok(Self::Auto)
        } else {
            Err(invalid_value(s))
        }
    }
}

impl std::str::FromStr for ChromaSubsampling {
    type Err = ValueParseError;

    /// What `parse` gives for `s`: the same as the function of this name above.
    fn from_str(s: &str) -> (r: Result<Self, Self::Err>)
        ensures
            agrees(r, ChromaSubsampling::parsed(s@)),
    {
        ChromaSubsampling::from_str(s)
    }
}

/// The settings of the JPEG encoder.
#[derive(Copy, Clone, Debug)]
pub struct JpegParams {
    pub quality: u32,
    pub chroma_subsampling: ChromaSubsampling,
    pub progressive: bool,
}

impl JpegParams {
    /// The settings that the list `s` spells: `quality` (80 if left out),
    /// `chroma_subsampling` (`auto`) and `progressive` (`true`), read in this order.
    pub open spec fn parsed(s: Seq<char>) -> Result<Self, Seq<char>> {
        let kv = entries_of(s);
        match u32_of(value_or(kv, "quality"@, "80"@)) {
            Err(e) => Err(e),
            Ok(quality) => match ChromaSubsampling::parsed(
                value_or(kv, "chroma_subsampling"@, "auto"@),
            ) {
                Err(e) => Err(e),
                Ok(chroma_subsampling) => match bool_of(value_or(kv, "progressive"@, "true"@)) {
                    Err(e) => Err(e),
                    Ok(progressive) => Ok(JpegParams { quality, chroma_subsampling, progressive }),
                },
            },
        }
    }

    pub fn from_str(s: &str) -> (r: Result<Self, ValueParseError>)
        ensures
            agrees(r, Self::parsed(s@)),
    {
        let params = parse_kv(s);
        let quality = match read_u32(params.get_or("quality", "80")) {
            Ok(v) => v,
            Err(e) => { return Err(e); },
        };
        let chroma_subsampling = match ChromaSubsampling::from_str(
            params.get_or("chroma_subsampling", "auto"),
        ) {
            Ok(v) => v,
            Err(e) => { return Err(e); },
        };
        let progressive = match read_bool(params.get_or("progressive", "true")) {
            Ok(v) => v,
            Err(e) => { return Err(e); },
        };
        Ok(Self { quality, chroma_subsampling, progressive })
    }
}

impl std::str::FromStr for JpegParams {
    type Err = ValueParseError;

    /// What `parse` gives for `s`: the same as the function of this name above.
    fn from_str(s: &str) -> (r: Result<Self, Self::Err>)
        ensures
            agrees(r, JpegParams::parsed(s@)),
    {
        JpegParams::from_str(s)
    }
}

/// The settings of the PNG encoder.
#[derive(Copy, Clone, Debug)]
pub struct PngParams {
    pub quality: u32,
    pub force_zopfli: bool,
    pub optimization_level: u8,
}

impl PngParams {
    /// The settings that the list `s` spells: `quality` (80 if left out),
    /// `force_zopfli` (`false`) and `optimization_level` (2), read in this order.
    pub open spec fn parsed(s: Seq<char>) -> Result<Self, Seq<char>> {
        let kv = entries_of(s);
        match u32_of(value_or(kv, "quality"@, "80"@)) {
            Err(e) => Err(e),
            Ok(quality) => match bool_of(value_or(kv, "force_zopfli"@, "false"@)) {
                Err(e) => Err(e),
                Ok(force_zopfli) => match u8_of(value_or(kv, "optimization_level"@, "2"@)) {
                    Err(e) => Err(e),
                    Ok(optimization_level) => Ok(
                        PngParams { quality, force_zopfli, optimization_level },
                    ),
                },
            },
        }
    }

    pub fn from_str(s: &str) -> (r: Result<Self, ValueParseError>)
        ensures
            agrees(r, Self::parsed(s@)),
    {
        let params = parse_kv(s);
        let quality = match read_u32(params.get_or("quality", "80")) {
            Ok(v) => v,
            Err(e) => { return Err(e); },
        };
        let force_zopfli = match read_bool(params.get_or("force_zopfli", "false")) {
            Ok(v) => v,
            Err(e) => { return Err(e); },
        };
        let optimization_level = match read_u8(params.get_or("optimization_level", "2")) {
            Ok(v) => v,
            Err(e) => { return Err(e); },
        };
        Ok(Self { quality, force_zopfli, optimization_level })
    }
}

impl std::str::FromStr for PngParams {
    type Err = ValueParseError;

    /// What `parse` gives for `s`: the same as the function of this name above.
    fn from_str(s: &str) -> (r: Result<Self, Self::Err>)
        ensures
            agrees(r, PngParams::parsed(s@)),
    {
        PngParams::from_str(s)
    }
}

/// The settings of the GIF encoder.
#[derive(Copy, Clone, Debug)]
pub struct GifParams {
    pub quality: u32,
}

impl GifParams {
    /// The settings that the list `s` spells: `quality` (80 if left out).
    pub open spec fn parsed(s: Seq<char>) -> Result<Self, Seq<char>> {
        match u32_of(value_or(entries_of(s), "quality"@, "80"@)) {
            Err(e) => Err(e),
            Ok(quality) => Ok(GifParams { quality }),
        }
    }

    pub fn from_str(s: &str) -> (r: Result<Self, ValueParseError>)
        ensures
            agrees(r, Self::parsed(s@)),
    {
        let params = parse_kv(s);
        match read_u32(params.get_or("quality", "80")) {
            Ok(quality) => Ok(Self { quality }),
            Err(e) => Err(e),
        }
    }
}

impl std::str::FromStr for GifParams {
    type Err = ValueParseError;

    /// What `parse` gives for `s`: the same as the function of this name above.
    fn from_str(s: &str) -> (r: Result<Self, Self::Err>)
        ensures
            agrees(r, GifParams::parsed(s@)),
    {
        GifParams::from_str(s)
    }
}

/// The settings of the WebP encoder.
#[derive(Copy, Clone, Debug)]
pub struct WebPParams {
    pub quality: u32,
}

impl WebPParams {
    /// The settings that the list `s` spells: `quality` (80 if left out).
    pub open spec fn parsed(s: Seq<char>) -> Result<Self, IntParseError> {
        match unsigned_value(value_or(entries_of(s), "quality"@, "80"@), u32::MAX as nat) {
            Err(e) => Err(e),
            Ok(quality) => Ok(WebPParams { quality: quality as u32 }),
        }
    }

    pub fn from_str(s: &str) -> (r: Result<Self, IntParseError>)
        ensures
            r == Self::parsed(s@),
    {
        let params = parse_kv(s);
        match parse_u32(params.get_or("quality", "80")) {
            Ok(quality) => Ok(Self { quality }),
            Err(e) => Err(e),
        }
    }
}

impl std::str::FromStr for WebPParams {
    type Err = IntParseError;

    /// What `parse` gives for `s`: the same as the function of this name above.
    fn from_str(s: &str) -> (r: Result<Self, Self::Err>)
        ensures
            r == WebPParams::parsed(s@),
    {
        WebPParams::from_str(s)
    }
}

/// How the data of a TIFF image is packed.
#[derive(Copy, Clone, Debug, PartialEq, Eq, Structural)]
pub enum TiffCompression {
    Uncompressed,
    Lzw,
    Deflate,
    Packbits,
}

impl TiffCompression {
    /// The packing that `s` names, letter case aside.
    pub open spec fn named(s: Seq<char>) -> Option<Self> {
        let word = lowercase(s);
        if word == "uncompressed"@ {
            Some(Self::Uncompressed)
        } else if word == "lzw"@ {
            Some(Self::Lzw)
        } else if word == "deflate"@ {
            Some(Self::Deflate)
        } else if word == "packbits"@ {
            Some(Self::Packbits)
        } else {
            None
        }
    }

    pub open spec fn parsed(s: Seq<char>) -> Result<Self, Seq<char>> {
        match Self::named(s) {
            Some(v) => Ok(v),
            None => Err(invalid_value_text(s)),
        }
    }

    pub fn from_str(s: &str) -> (r: Result<Self, ValueParseError>)
        ensures
            agrees(r, Self::parsed(s@)),
    {
        if eq_lowercase(s, "uncompressed") {
            Ok(Self::Uncompressed)
        } else if eq_lowercase(s, "lzw") {
            Ok(Self::Lzw)
        } else if eq_lowercase(s, "deflate") {
            Ok(Self::Deflate)
        } else if eq_lowercase(s, "packbits") {
            Ok(Self::Packbits)
        } else {
            Err(invalid_value(s))
        }
    }
}

impl Default for TiffCompression {
    fn default() -> (r: Self)
        ensures
            r == Self::Deflate,
    {
        Self::Deflate
    }
}

impl std::str::FromStr for TiffCompression {
    type Err = ValueParseError;

    /// What `parse` gives for `s`: the same as the function of this name above.
    fn from_str(s: &str) -> (r: Result<Self, Self::Err>)
        ensures
            agrees(r, TiffCompression::parsed(s@)),
    {
        TiffCompression::from_str(s)
    }
}

/// How hard the deflate packing of a TIFF image works.
#[derive(Copy, Clone, Debug, PartialEq, Eq, Structural)]
pub enum TiffDeflateLevel {
    Fast,
    Balanced,
    Best,
}

impl TiffDeflateLevel {
    /// The level that `s` names, letter case aside.
    pub open spec fn named(s: Seq<char>) -> Option<Self> {
        let word = lowercase(s);
        if word == "fast"@ {
            Some(Self::Fast)
        } else if word == "balanced"@ {
            Some(Self::Balanced)
        } else if word == "best"@ {
            Some(Self::Best)
        } else {
            None
        }
    }

    pub open spec fn parsed(s: Seq<char>) -> Result<Self, Seq<char>> {
        match Self::named(s) {
            Some(v) => Ok(v),
            None => Err(invalid_value_text(s)),
        }
    }

    pub fn from_str(s: &str) -> (r: Result<Self, ValueParseError>)
        ensures
            agrees(r, Self::parsed(s@)),
    {
        if eq_lowercase(s, "fast") {
            Ok(Self::Fast)
        } else if eq_lowercase(s, "balanced") {
            Ok(Self::Balanced)
        } else if eq_lowercase(s, "best") {
            Ok(Self::Best)
        } else {
            Err(invalid_value(s))
        }
    }
}

impl Default for TiffDeflateLevel {
    fn default() -> (r: Self)
        ensures
            r == Self::Balanced,
    {
        Self::Balanced
    }
}

impl std::str::FromStr for TiffDeflateLevel {
    type Err = ValueParseError;

    /// What `parse` gives for `s`: the same as the function of this name above.
    fn from_str(s: &str) -> (r: Result<Self, Self::Err>)
        ensures
            agrees(r, TiffDeflateLevel::parsed(s@)),
    {
        TiffDeflateLevel::from_str(s)
    }
}

/// The settings of the TIFF encoder.
#[derive(Copy, Clone, Debug)]
pub struct TiffParams {
    pub algorithm: TiffCompression,
    pub deflate_level: TiffDeflateLevel,
}

impl TiffParams {
    /// The settings that the list `s` spells: `algorithm` (`deflate` if left out)
    /// and `deflate_level` (`balanced`), read in this order.
    pub open spec fn parsed(s: Seq<char>) -> Result<Self, Seq<char>> {
        let kv = entries_of(s);
        match TiffCompression::parsed(value_or(kv, "algorithm"@, "deflate"@)) {
            Err(e) => Err(e),
            Ok(algorithm) => match TiffDeflateLevel::parsed(
                value_or(kv, "deflate_level"@, "balanced"@),
            ) {
                Err(e) => Err(e),
                Ok(deflate_level) => Ok(TiffParams { algorithm, deflate_level }),
            },
        }
    }

    pub fn from_str(s: &str) -> (r: Result<Self, ValueParseError>)
        ensures
            agrees(r, Self::parsed(s@)),
    {
        let params = parse_kv(s);
        let algorithm = match TiffCompression::from_str(params.get_or("algorithm", "deflate")) {
            Ok(v) => v,
            Err(e) => { return Err(e); },
        };
        let deflate_level = match TiffDeflateLevel::from_str(
            params.get_or("deflate_level", "balanced"),
        ) {
            Ok(v) => v,
            Err(e) => { return Err(e); },
        };
        Ok(Self { algorithm, deflate_level })
    }
}

impl std::str::FromStr for TiffParams {
    type Err = ValueParseError;

    /// What `parse` gives for `s`: the same as the function of this name above.
    fn from_str(s: &str) -> (r: Result<Self, Self::Err>)
        ensures
            agrees(r, TiffParams::parsed(s@)),
    {
        TiffParams::from_str(s)
    }
}

/// The options of a run, as the command line gives them. Paths are text.
#[derive(Debug)]
pub struct CliOptions {
    /// Input file or directory.
    pub input: String,
    /// Output file or directory.
    pub output: String,
    /// What is put before the name of each output file.
    pub prefix: Option<String>,
    /// What is put behind the stem of the name of each output file.
    pub suffix: Option<String>,
    pub dry_run: bool,
    /// Whether a batch goes on after a file has failed.
    pub continue_on_error: bool,
    pub skip_if_bigger: bool,
    /// The format to convert to; without it each image keeps its format.
    pub target_format: Option<OutputFormatTypes>,
    /// Whether the input file is deleted once it is processed.
    pub delete_origin: bool,
    pub keep_metadata: bool,
    pub lossless: bool,
    pub resize_args: ResizeArgs,
    pub jpeg_params: Option<JpegParams>,
    pub png_params: Option<PngParams>,
    pub gif_params: Option<GifParams>,
    pub webp_params: Option<WebPParams>,
    pub tiff_params: Option<TiffParams>,
}

} // verus!
