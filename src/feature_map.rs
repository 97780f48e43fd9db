//! Feature maps: an index with a name and a type for each feature, used to label
//! the features in text dumps of a model.
//!
//! The text form has one feature per line: `<index>\t<name>\t<type>`, where the type is
//! `i` (binary), `q` (quantitative) or `int` (integer).
use crate::error::{ErrorKind, XGBError};
use crate::text::{
    chars_of, digit_char, digit_value, is_digit, nat_text, push_chars, push_nat, split_chars, split_spec,
    string_of,
};
use std::collections::BTreeMap;
use vstd::std_specs::cmp::OrdSpec;
use vstd::std_specs::iter::IteratorSpec;
use vstd::prelude::*;

verus! {

/// Indicates the type of a feature, used when dumping models as text.
#[derive(Clone, Copy, Debug, PartialEq, Eq, Structural)]
pub enum FeatureType {
    /// Binary indicator feature.
    Binary,
    /// Quantitative feature (e.g. age, time, etc.), can be missing.
    Quantitative,
    /// Integer feature (when hinted, decision boundary will be integer).
    Integer,
}

/// The code of a feature type in a feature map file.
pub open spec fn feature_type_code(t: FeatureType) -> Seq<char> {
    match t {
        FeatureType::Binary => seq!['i'],
        FeatureType::Quantitative => seq!['q'],
        FeatureType::Integer => seq!['i', 'n', 't'],
    }
}

/// The feature type that a code names.
pub open spec fn feature_type_of(code: Seq<char>) -> Option<FeatureType> {
    if code == seq!['i'] {
        Some(FeatureType::Binary)
    } else if code == seq!['q'] {
        Some(FeatureType::Quantitative)
    } else if code == seq!['i', 'n', 't'] {
        Some(FeatureType::Integer)
    } else {
        None
    }
}

/// Message for a code that names no feature type.
pub open spec fn feature_type_error(code: Seq<char>) -> Seq<char> {
    "unrecognised feature type '"@ + code + "', must be one of: 'i', 'q', 'int'"@
}

impl FeatureType {
    /// Reads a type code: `i`, `q` or `int`.
    pub fn parse(s: &str) -> (r: Result<FeatureType, String>)
        ensures
            match feature_type_of(s@) {
                Some(t) => r == Ok::<FeatureType, String>(t),
                None => r is Err && r->Err_0@ == feature_type_error(s@),
            },
    {
        let c = chars_of(s);
        match feature_type_from_chars(c.as_slice()) {
            Some(t) => Ok(t),
            None => {
                let mut msg = String::from_str("unrecognised feature type '");
                msg.append(s);
                msg.append("', must be one of: 'i', 'q', 'int'");
                Err(msg)
            },
        }
    }

    /// The type code, as a feature map file writes it.
    pub fn code(&self) -> (r: &'static str)
        ensures
            r@ == feature_type_code(*self),
    {
        proof {
            reveal_strlit("i");
            reveal_strlit("q");
            reveal_strlit("int");
        }
        match self {
            FeatureType::Binary => "i",
            FeatureType::Quantitative => "q",
            FeatureType::Integer => "int",
        }
    }
}

impl std::str::FromStr for FeatureType {
    type Err = String;

    fn from_str(s: &str) -> Result<FeatureType, String> {
        FeatureType::parse(s)
    }
}

fn feature_type_from_chars(c: &[char]) -> (r: Option<FeatureType>)
    ensures
        r == feature_type_of(c@),
{
    if c.len() == 1 && c[0] == 'i' {
        assert(c@ =~= seq!['i']);
        Some(FeatureType::Binary)
    } else if c.len() == 1 && c[0] == 'q' {
        assert(c@ =~= seq!['q']);
        Some(FeatureType::Quantitative)
    } else if c.len() == 3 && c[0] == 'i' && c[1] == 'n' && c[2] == 't' {
        assert(c@ =~= seq!['i', 'n', 't']);
        Some(FeatureType::Integer)
    } else {
        None
    }
}

/// Value of a run of decimal digits.
pub open spec fn digits_value(s: Seq<char>) -> nat
    decreases s.len(),
{
    if s.len() == 0 {
        0
    } else {
        digits_value(s.drop_last()) * 10 + digit_value(s.last())
    }
}

pub open spec fn all_digits(s: Seq<char>) -> bool {
    forall|i: int| 0 <= i < s.len() ==> is_digit(#[trigger] s[i])
}

/// Reading of an unsigned number as `u32::from_str` does it: an optional `+`, then one
/// or more decimal digits, with a value that fits.
pub open spec fn parse_u32_spec(s: Seq<char>) -> Option<u32> {
    let d = if s.len() > 0 && s[0] == '+' {
        s.drop_first()
    } else {
        s
    };
    if d.len() > 0 && all_digits(d) && digits_value(d) <= u32::MAX {
        Some(digits_value(d) as u32)
    } else {
        None
    }
}

proof fn lemma_digits_value_grows(s: Seq<char>, k: int)
    requires
        0 <= k <= s.len(),
    ensures
        digits_value(s.take(k)) <= digits_value(s),
    decreases s.len(),
{
    if k == s.len() {
        assert(s.take(k) =~= s);
    } else {
        assert(s.drop_last().take(k) =~= s.take(k));
        lemma_digits_value_grows(s.drop_last(), k);
    }
}

/// Reads an unsigned 32-bit number.
pub fn parse_u32(s: &[char]) -> (r: Option<u32>)
    ensures
        r == parse_u32_spec(s@),
{
    let ghost d = if s@.len() > 0 && s@[0] == '+' {
        s@.drop_first()
    } else {
        s@
    };
    let start: usize = if s.len() > 0 && s[0] == '+' {
        1
    } else {
        0
    };
    assert(d =~= s@.skip(start as int));
    assert(parse_u32_spec(s@) == (if d.len() > 0 && all_digits(d) && digits_value(d) <= u32::MAX {
        Some(digits_value(d) as u32)
    } else {
        None
    }));
    if start == s.len() {
        return None;
    }
    let mut acc: u64 = 0;
    let mut i: usize = start;
    assert(d.take(0) =~= Seq::<char>::empty());
    while i < s.len()
        invariant
            start <= i <= s@.len(),
            d == s@.skip(start as int),
            parse_u32_spec(s@) == (if d.len() > 0 && all_digits(d) && digits_value(d) <= u32::MAX {
                Some(digits_value(d) as u32)
            } else {
                None
            }),
            acc as nat == digits_value(d.take(i - start)),
            all_digits(d.take(i - start)),
            acc <= u32::MAX,
        decreases s.len() - i,
    {
        let c = s[i];
        assert(d[i - start] == c);
        assert(d.take(i - start + 1).drop_last() =~= d.take(i - start));
        if !('0' <= c && c <= '9') {
            assert(!is_digit(d[i - start]));
            return None;
        }
        let v = (c as u32 - '0' as u32) as u64;
        acc = acc * 10 + v;
        i = i + 1;
        assert(all_digits(d.take(i - start))) by {
            assert forall|k: int| 0 <= k < i - start implies is_digit(#[trigger] d.take(i - start)[k]) by {
                if k < i - start - 1 {
                    assert(d.take(i - start)[k] == d.take(i - start - 1)[k]);
                }
            }
        }
        if acc > u32::MAX as u64 {
            proof {
                lemma_digits_value_grows(d, i - start);
            }
            return None;
        }
    }
    assert(d.take(i - start) =~= d);
    Some(acc as u32)
}

/// One line of a feature map: index, name and type, if it is well formed.
pub open spec fn parse_line(line: Seq<char>) -> Option<(u32, Seq<char>, FeatureType)> {
    let p = split_spec(line, '\t');
    if p.len() == 3 && parse_u32_spec(p[0]) is Some && feature_type_of(p[2]) is Some {
        Some((parse_u32_spec(p[0])->Some_0, p[1], feature_type_of(p[2])->Some_0))
    } else {
        None
    }
}

/// Description of the fault in a malformed line; `number` counts lines from one.
pub open spec fn line_error(number: nat, line: Seq<char>) -> Seq<char> {
    let p = split_spec(line, '\t');
    let head = "Unable to parse features from line "@ + nat_text(number);
    if p.len() != 3 {
        head + ", expected 3 tab separated values"@
    } else if parse_u32_spec(p[0]) is None {
        head + ", could not parse feature number"@
    } else {
        head + ": "@ + feature_type_error(p[2])
    }
}

/// The map that the lines describe (a later line for an index replaces an earlier
/// one), or the description of the first malformed line.
pub open spec fn parse_lines(lines: Seq<Seq<char>>) -> Result<
    Map<u32, (Seq<char>, FeatureType)>,
    Seq<char>,
>
    decreases lines.len(),
{
    if lines.len() == 0 {
        Ok(Map::empty())
    } else {
        match parse_lines(lines.drop_last()) {
            Err(e) => Err(e),
            Ok(m) => match parse_line(lines.last()) {
                None => Err(line_error(lines.len(), lines.last())),
                Some(f) => Ok(m.insert(f.0, (f.1, f.2))),
            },
        }
    }
}

/// Maps a feature index to a name and type, used when dumping models as text.
pub struct FeatureMap(BTreeMap<u32, (String, FeatureType)>);

/// No feature name holds a tab, so each entry stays one line of three fields.
pub open spec fn names_without_tabs(m: Map<u32, (Seq<char>, FeatureType)>) -> bool {
    forall|k: u32| #[trigger] m.contains_key(k) ==> !m[k].0.contains('\t')
}

impl FeatureMap {
    #[verifier::type_invariant]
    spec fn inv(self) -> bool {
        names_without_tabs(self@)
    }
}

impl View for FeatureMap {
    type V = Map<u32, (Seq<char>, FeatureType)>;

    closed spec fn view(&self) -> Map<u32, (Seq<char>, FeatureType)> {
        self.0@.map_values(|v: (String, FeatureType)| (v.0@, v.1))
    }
}

pub open spec fn lines_view(lines: Seq<String>) -> Seq<Seq<char>> {
    lines.map_values(|l: String| l@)
}

fn line_error_exec(number: usize, fields: &Vec<Vec<char>>, Ghost(line): Ghost<Seq<char>>) -> (r:
    String)
    requires
        split_spec(line, '\t') == fields@.map_values(|f: Vec<char>| f@),
        parse_line(line) is None,
    ensures
        r@ == line_error(number as nat, line),
{
    let ghost p = split_spec(line, '\t');
    let ghost head = "Unable to parse features from line "@ + nat_text(number as nat);
    let mut msg = String::from_str("Unable to parse features from line ");
    push_nat(&mut msg, number as u64);
    assert(msg@ == head);
    if fields.len() != 3 {
        msg.append(", expected 3 tab separated values");
    } else {
        assert(p[0] == fields@[0]@);
        assert(p[2] == fields@[2]@);
        if parse_u32(fields[0].as_slice()).is_none() {
            msg.append(", could not parse feature number");
        } else {
            msg.append(": ");
            msg.append("unrecognised feature type '");
            push_chars(&mut msg, fields[2].as_slice());
            msg.append("', must be one of: 'i', 'q', 'int'");
            assert(msg@ =~= head + ": "@ + feature_type_error(p[2]));
        }
    }
    msg
}

proof fn lemma_parse_lines_err_extends(ls: Seq<Seq<char>>, k: int)
    requires
        0 <= k <= ls.len(),
        parse_lines(ls.take(k)) is Err,
    ensures
        parse_lines(ls) == parse_lines(ls.take(k)),
    decreases ls.len(),
{
    if k == ls.len() {
        assert(ls.take(k) =~= ls);
    } else {
        assert(ls.drop_last().take(k) =~= ls.take(k));
        lemma_parse_lines_err_extends(ls.drop_last(), k);
    }
}

impl FeatureMap {
    /// Reads a feature map from its lines, one feature per line.
    ///
    /// Each line must hold exactly three tab-separated fields: an unsigned index, a name,
    /// and a type code. The first line that does not is reported with its number,
    /// counted from one. A later line for an index replaces an earlier one.
    pub fn from_lines(lines: &Vec<String>) -> (r: Result<FeatureMap, XGBError>)
        ensures
            match parse_lines(lines_view(lines@)) {
                Ok(m) => r is Ok && r->Ok_0@ == m,
                Err(d) => r is Err && r->Err_0.kind == ErrorKind::Parse && r->Err_0.desc@ == d,
            },
    {
        let ghost lv = lines_view(lines@);
        let mut map: BTreeMap<u32, (String, FeatureType)> = BTreeMap::new();
        let mut i: usize = 0;
        assert(lv.take(0) =~= Seq::<Seq<char>>::empty());
        assert(map@.map_values(|v: (String, FeatureType)| (v.0@, v.1)) =~= Map::<
            u32,
            (Seq<char>, FeatureType),
        >::empty());
        while i < lines.len()
            invariant
                i <= lines@.len(),
                lv == lines_view(lines@),
                parse_lines(lv.take(i as int)) == Ok::<_, Seq<char>>(
                    map@.map_values(|v: (String, FeatureType)| (v.0@, v.1)),
                ),
                names_without_tabs(map@.map_values(|v: (String, FeatureType)| (v.0@, v.1))),
            decreases lines.len() - i,
        {
            let ghost line = lv[i as int];
            assert(lv.take(i + 1 as int).drop_last() =~= lv.take(i as int));
            assert(lv.take(i + 1 as int).last() == line);
            let chars = chars_of(lines[i].as_str());
            let fields = split_chars(chars.as_slice(), '\t');
            assert(fields@.map_values(|f: Vec<char>| f@) =~= split_spec(line, '\t'));
            let index = if fields.len() == 3 {
                parse_u32(fields[0].as_slice())
            } else {
                None
            };
            let ftype = if fields.len() == 3 {
                feature_type_from_chars(fields[2].as_slice())
            } else {
                None
            };
            if index.is_none() || ftype.is_none() {
                proof {
                    if fields@.len() == 3 {
                        assert(split_spec(line, '\t')[0] == fields@[0]@);
                        assert(split_spec(line, '\t')[2] == fields@[2]@);
                    }
                    assert(parse_line(line) is None);
                    lemma_parse_lines_err_extends(lv, i + 1);
                }
                let desc = line_error_exec(i + 1, &fields, Ghost(line));
                return Err(XGBError::new(ErrorKind::Parse, desc));
            }
            assert(split_spec(line, '\t')[0] == fields@[0]@);
            assert(split_spec(line, '\t')[1] == fields@[1]@);
            assert(split_spec(line, '\t')[2] == fields@[2]@);
            proof {
                crate::text::lemma_split_pieces(line, '\t');
                assert(!split_spec(line, '\t')[1].contains('\t'));
            }
            let num = index.unwrap();
            let name = string_of(fields[1].as_slice());
            let ghost before = map@;
            map.insert(num, (name, ftype.unwrap()));
            assert(map@.map_values(|v: (String, FeatureType)| (v.0@, v.1)) =~= before.map_values(
                |v: (String, FeatureType)| (v.0@, v.1),
            ).insert(num, (fields@[1]@, ftype.unwrap())));
            i = i + 1;
        }
        assert(lv.take(i as int) =~= lv);
        Ok(FeatureMap(map))
    }
}

/// The line of one feature: `<index>\t<name>\t<type code>`.
pub open spec fn entry_text(index: u32, entry: (Seq<char>, FeatureType)) -> Seq<char> {
    nat_text(index as nat) + seq!['\t'] + entry.0 + seq!['\t'] + feature_type_code(entry.1)
}

impl FeatureMap {
    /// The lines of the map in the text form, by increasing index.
    pub fn to_lines(&self) -> (r: Vec<String>)
        ensures
            r@.len() == self@.dom().len(),
            names_without_tabs(self@),
            exists|keys: Seq<u32>|
                {
                    &&& #[trigger] keys.len() == r@.len()
                    &&& forall|i: int, j: int| 0 <= i < j < keys.len() ==> keys[i] < keys[j]
                    &&& forall|i: int|
                        0 <= i < keys.len() ==> self@.contains_key(#[trigger] keys[i]) && r@[i]@
                            == entry_text(keys[i], self@[keys[i]])
                    &&& forall|k: u32| #[trigger] self@.contains_key(k) ==> keys.contains(k)
                },
    {
        proof {
            use_type_invariant(self);
        }
        let mut out: Vec<String> = Vec::new();
        let iter = self.0.iter();
        let ghost items = iter.remaining();
        proof {
            broadcast use vstd::std_specs::btree::group_btree_axioms;
            assert(vstd::std_specs::btree::key_obeys_cmp_spec::<u32>());
        }
        for kv in it: iter
            invariant
                it.seq() == items,
                out@.len() == it.index(),
                forall|i: int|
                    0 <= i < it.index() ==> #[trigger] out@[i]@ == entry_text(
                        *it.seq()[i].0,
                        (it.seq()[i].1.0@, it.seq()[i].1.1),
                    ),
        {
            let mut line = String::new();
            push_nat(&mut line, *kv.0 as u64);
            crate::text::push_char(&mut line, '\t');
            line.append(kv.1.0.as_str());
            crate::text::push_char(&mut line, '\t');
            line.append(kv.1.1.code());
            assert(line@ =~= entry_text(*kv.0, (kv.1.0@, kv.1.1)));
            out.push(line);
        }
        proof {
            broadcast use vstd::std_specs::btree::group_btree_axioms;
            let keys = items.map_values(|kv: (&u32, &(String, FeatureType))| *kv.0);
            assert(vstd::std_specs::btree::increasing_seq(keys));
            assert forall|i: int, j: int| 0 <= i < j < keys.len() implies keys[i] < keys[j] by {
                assert(keys[i].cmp_spec(&keys[j]) is Less);
            }
            assert forall|i: int| 0 <= i < keys.len() implies self@.contains_key(#[trigger] keys[i])
                && out@[i]@ == entry_text(keys[i], self@[keys[i]]) by {
                assert(self.0@.contains_key(*items[i].0));
                assert(self.0@[*items[i].0] == *items[i].1);
            }
            assert(keys.len() == out@.len());
            assert forall|k: u32| #[trigger] self@.contains_key(k) implies keys.contains(k) by {
                assert(self.0@.contains_key(k));
                assert(items.contains((&k, &self.0@[k])));
                let i = choose|i: int| 0 <= i < items.len() && items[i] == (&k, &self.0@[k]);
                assert(keys[i] == k);
            }
            assert(items == vstd::std_specs::btree::spec_btree_map_iter(&self.0).remaining());
            assert(items.len() == self.0@.dom().len());
            assert(self@.dom() =~= self.0@.dom());
        }
        out
    }
}

pub proof fn lemma_digits_value_of_text(n: nat)
    ensures
        digits_value(nat_text(n)) == n,
    decreases n,
{
    crate::text::lemma_digit_char(n % 10);
    let t = nat_text(n);
    if n < 10 {
        assert(t.drop_last() =~= Seq::<char>::empty());
        assert(t.last() == digit_char(n));
        assert(digits_value(t) == digits_value(t.drop_last()) * 10 + digit_value(t.last()));
    } else {
        lemma_digits_value_of_text(n / 10);
        assert(t.drop_last() =~= nat_text(n / 10));
        assert(t.last() == digit_char(n % 10));
        assert(digits_value(t) == digits_value(t.drop_last()) * 10 + digit_value(t.last()));
        assert((n / 10) * 10 + n % 10 == n) by (nonlinear_arith);
    }
}

proof fn lemma_entry_parses(k: u32, entry: (Seq<char>, FeatureType))
    requires
        !entry.0.contains('\t'),
    ensures
        parse_line(entry_text(k, entry)) == Some((k, entry.0, entry.1)),
{
    let num = nat_text(k as nat);
    let code = feature_type_code(entry.1);
    crate::text::lemma_nat_text_digits(k as nat);
    lemma_digits_value_of_text(k as nat);
    assert(!num.contains('\t')) by {
        if num.contains('\t') {
            let i = choose|i: int| 0 <= i < num.len() && num[i] == '\t';
            assert(is_digit(num[i]));
        }
    }
    assert(!code.contains('\t')) by {
        if code.contains('\t') {
            let i = choose|i: int| 0 <= i < code.len() && code[i] == '\t';
        }
    }
    crate::text::lemma_split_join(num, entry.0, '\t');
    crate::text::lemma_split_join(num + seq!['\t'] + entry.0, code, '\t');
    crate::text::lemma_split_single(num, '\t');
    crate::text::lemma_split_single(entry.0, '\t');
    crate::text::lemma_split_single(code, '\t');
    let p = split_spec(entry_text(k, entry), '\t');
    assert(p =~= seq![num, entry.0, code]);
    assert(is_digit(num[0]));
    assert(all_digits(num));
    assert(parse_u32_spec(num) == Some(k));
    assert(feature_type_of(code) == Some(entry.1));
}

/// Reading back the lines of a feature map, one per index in increasing order, gives the
/// same map.
pub proof fn lemma_lines_round_trip(m: Map<u32, (Seq<char>, FeatureType)>, keys: Seq<u32>)
    requires
        names_without_tabs(m),
        forall|i: int, j: int| 0 <= i < j < keys.len() ==> keys[i] < keys[j],
        forall|i: int| 0 <= i < keys.len() ==> m.contains_key(#[trigger] keys[i]),
        forall|k: u32| #[trigger] m.contains_key(k) ==> keys.contains(k),
    ensures
        parse_lines(map_lines(m, keys)) == Ok::<_, Seq<char>>(m),
{
    let lines = map_lines(m, keys);
    lemma_lines_prefix(m, keys, keys.len() as int);
    assert(lines.take(keys.len() as int) =~= lines);
    let r = prefix_map(m, keys, keys.len() as int);
    assert(r =~= m) by {
        assert forall|k: u32| #[trigger] r.contains_key(k) <==> m.contains_key(k) by {
            if m.contains_key(k) {
                let i = choose|i: int| 0 <= i < keys.len() && keys[i] == k;
            }
        }
    }
}

/// The lines of the entries of `m` at `keys`, in that order.
pub open spec fn map_lines(m: Map<u32, (Seq<char>, FeatureType)>, keys: Seq<u32>) -> Seq<Seq<char>> {
    keys.map_values(|k: u32| entry_text(k, m[k]))
}

spec fn prefix_map(m: Map<u32, (Seq<char>, FeatureType)>, keys: Seq<u32>, n: int) -> Map<
    u32,
    (Seq<char>, FeatureType),
> {
    parse_lines(map_lines(m, keys).take(n))->Ok_0
}

proof fn lemma_lines_prefix(m: Map<u32, (Seq<char>, FeatureType)>, keys: Seq<u32>, n: int)
    requires
        names_without_tabs(m),
        0 <= n <= keys.len(),
        forall|i: int| 0 <= i < keys.len() ==> m.contains_key(#[trigger] keys[i]),
    ensures
        parse_lines(map_lines(m, keys).take(n)) is Ok,
        forall|k: u32|
            #[trigger] prefix_map(m, keys, n).contains_key(k) <==> exists|i: int|
                0 <= i < n && keys[i] == k,
        forall|k: u32| #[trigger] prefix_map(m, keys, n).contains_key(k) ==> prefix_map(m, keys, n)[k] == m[k],
    decreases n,
{
    let lines = map_lines(m, keys);
    if n == 0 {
        assert(lines.take(0) =~= Seq::<Seq<char>>::empty());
    } else {
        lemma_lines_prefix(m, keys, n - 1);
        let k = keys[n - 1];
        assert(lines.take(n).drop_last() =~= lines.take(n - 1));
        assert(lines.take(n).last() == entry_text(k, m[k]));
        lemma_entry_parses(k, m[k]);
        let prev = prefix_map(m, keys, n - 1);
        assert(parse_lines(lines.take(n)) == Ok::<_, Seq<char>>(prev.insert(k, (m[k].0, m[k].1))));
        assert forall|j: u32|
            #[trigger] prev.insert(k, (m[k].0, m[k].1)).contains_key(j) <==> exists|i: int|
                0 <= i < n && keys[i] == j by {
            if exists|i: int| 0 <= i < n && keys[i] == j {
                let i = choose|i: int| 0 <= i < n && keys[i] == j;
                if i < n - 1 {
                    assert(prev.contains_key(j));
                }
            }
            if prev.contains_key(j) {
                let i = choose|i: int| 0 <= i < n - 1 && keys[i] == j;
            }
        }
    }
}

} // verus!
