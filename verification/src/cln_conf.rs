//! The node-configuration fragment this crate owns: one directive per
//! line, regenerated as a whole.  Directives are `plugin=`,
//! `important-plugin=` and `disable-plugin=` entries keyed by the
//! executable path of an installed plugin.
use vstd::prelude::*;

use crate::errors::{CoffeeError, CODE_GENERIC};

verus! {

/// Mathematical content of one directive.
#[verifier::ext_equal]
pub ghost struct ConfFieldView {
    pub key: Seq<char>,
    pub value: Seq<char>,
}

/// One `key=value` directive of the managed fragment.
#[derive(Debug, PartialEq, Eq)]
pub struct ConfField {
    pub key: String,
    pub value: String,
}

impl View for ConfField {
    type V = ConfFieldView;

    open spec fn view(&self) -> ConfFieldView {
        ConfFieldView { key: self.key@, value: self.value@ }
    }
}

impl Clone for ConfField {
    fn clone(&self) -> (r: Self)
        ensures
            r@ == self@,
    {
        ConfField { key: self.key.clone(), value: self.value.clone() }
    }
}

/// The directives of a fragment, as a sequence of key/value pairs.
pub open spec fn fields_view(v: Seq<ConfField>) -> Seq<ConfFieldView> {
    v.map_values(|f: ConfField| f@)
}

/// Whether a directive matches a key and, when one is given, a value.
pub open spec fn spec_field_matches(
    f: ConfFieldView,
    key: Seq<char>,
    value: Option<Seq<char>>,
) -> bool {
    f.key == key && (match value {
        Some(v) => f.value == v,
        None => true,
    })
}

/// Whether some directive of `s` matches.
pub open spec fn spec_has_field(
    s: Seq<ConfFieldView>,
    key: Seq<char>,
    value: Option<Seq<char>>,
) -> bool {
    exists|i: int| 0 <= i < s.len() && spec_field_matches(s[i], key, value)
}

/// `s` with every matching directive removed.
pub open spec fn spec_rm_field(
    s: Seq<ConfFieldView>,
    key: Seq<char>,
    value: Option<Seq<char>>,
) -> Seq<ConfFieldView>
    decreases s.len(),
{
    if s.len() == 0 {
        s
    } else if spec_field_matches(s.last(), key, value) {
        spec_rm_field(s.drop_last(), key, value)
    } else {
        spec_rm_field(s.drop_last(), key, value).push(s.last())
    }
}

/// Removing a directive that is not there leaves the fragment as it is.
pub proof fn lemma_rm_field_absent(s: Seq<ConfFieldView>, key: Seq<char>, value: Option<Seq<char>>)
    requires
        !spec_has_field(s, key, value),
    ensures
        spec_rm_field(s, key, value) == s,
    decreases s.len(),
{
    if s.len() > 0 {
        assert(!spec_field_matches(s.last(), key, value)) by {
            assert(s[s.len() - 1] == s.last());
        }
        assert(!spec_has_field(s.drop_last(), key, value)) by {
            if spec_has_field(s.drop_last(), key, value) {
                let i = choose|i: int|
                    0 <= i < s.drop_last().len() && spec_field_matches(
                        s.drop_last()[i],
                        key,
                        value,
                    );
                assert(spec_field_matches(s[i], key, value));
            }
        }
        lemma_rm_field_absent(s.drop_last(), key, value);
        assert(spec_rm_field(s, key, value) =~= s);
    }
}

/// Appending a directive and then removing every directive that matches it
/// restores a fragment that did not contain a matching directive before.
pub proof fn lemma_add_then_rm(s: Seq<ConfFieldView>, f: ConfFieldView, value: Option<Seq<char>>)
    requires
        !spec_has_field(s, f.key, value),
        spec_field_matches(f, f.key, value),
    ensures
        spec_rm_field(s.push(f), f.key, value) == s,
{
    assert(s.push(f).drop_last() =~= s);
    lemma_rm_field_absent(s, f.key, value);
}

/// Every directive that survives a removal comes from the original
/// fragment and does not match what was removed.
pub proof fn lemma_rm_field_sound(s: Seq<ConfFieldView>, key: Seq<char>, value: Option<Seq<char>>)
    ensures
        forall|i: int|
            0 <= i < spec_rm_field(s, key, value).len() ==> (exists|j: int|
                0 <= j < s.len() && s[j] == #[trigger] spec_rm_field(s, key, value)[i])
                && !spec_field_matches(spec_rm_field(s, key, value)[i], key, value),
    decreases s.len(),
{
    if s.len() > 0 {
        lemma_rm_field_sound(s.drop_last(), key, value);
        let r = spec_rm_field(s, key, value);
        let rd = spec_rm_field(s.drop_last(), key, value);
        assert forall|i: int| 0 <= i < r.len() implies (exists|j: int|
            0 <= j < s.len() && s[j] == #[trigger] r[i]) && !spec_field_matches(
            r[i],
            key,
            value,
        ) by {
            if i < rd.len() {
                assert(r[i] == rd[i]);
                let j = choose|j: int| 0 <= j < s.drop_last().len() && s.drop_last()[j] == rd[i];
                assert(s[j] == r[i]);
            } else {
                assert(!spec_field_matches(s.last(), key, value));
                assert(r[i] == s.last());
                assert(s[s.len() - 1] == r[i]);
            }
        }
    }
}

/// Every directive of the fragment that does not match survives a
/// removal.
pub proof fn lemma_rm_field_complete(
    s: Seq<ConfFieldView>,
    key: Seq<char>,
    value: Option<Seq<char>>,
)
    ensures
        forall|j: int|
            0 <= j < s.len() && !spec_field_matches(#[trigger] s[j], key, value) ==> (exists|i: int|
                0 <= i < spec_rm_field(s, key, value).len() && spec_rm_field(s, key, value)[i]
                    == s[j]),
    decreases s.len(),
{
    if s.len() > 0 {
        lemma_rm_field_complete(s.drop_last(), key, value);
        let r = spec_rm_field(s, key, value);
        let rd = spec_rm_field(s.drop_last(), key, value);
        assert forall|j: int|
            0 <= j < s.len() && !spec_field_matches(#[trigger] s[j], key, value) implies (exists|
            i: int,
        |
            0 <= i < r.len() && r[i] == s[j]) by {
            if j < s.len() - 1 {
                assert(s.drop_last()[j] == s[j]);
                let i = choose|i: int| 0 <= i < rd.len() && rd[i] == s.drop_last()[j];
                assert(r[i] == s[j]);
            } else {
                assert(s[j] == s.last());
                assert(!spec_field_matches(s.last(), key, value));
                assert(r[r.len() - 1] == s[j]);
            }
        }
    }
}

/// The rendered form of a fragment: one `key=value` line per directive.
pub open spec fn spec_render(s: Seq<ConfFieldView>) -> Seq<char>
    decreases s.len(),
{
    if s.len() == 0 {
        Seq::empty()
    } else {
        spec_render(s.drop_last()) + s.last().key + "="@ + s.last().value + "\n"@
    }
}

/// The characters of `s` before its first `\n`; all of `s` when it has
/// none.
pub open spec fn spec_take_line(s: Seq<char>) -> Seq<char>
    decreases s.len(),
{
    if s.len() == 0 {
        s
    } else if s.first() == '\n' {
        Seq::empty()
    } else {
        seq![s.first()] + spec_take_line(s.drop_first())
    }
}

/// The characters of `s` after its first `\n`; empty when it has none.
pub open spec fn spec_after_line(s: Seq<char>) -> Seq<char>
    decreases s.len(),
{
    if s.len() == 0 {
        s
    } else if s.first() == '\n' {
        s.drop_first()
    } else {
        spec_after_line(s.drop_first())
    }
}

proof fn lemma_after_line_shorter(s: Seq<char>)
    ensures
        s.len() > 0 ==> spec_after_line(s).len() < s.len(),
    decreases s.len(),
{
    if s.len() > 0 && s.first() != '\n' {
        lemma_after_line_shorter(s.drop_first());
        if s.drop_first().len() == 0 {
            assert(spec_after_line(s.drop_first()).len() == 0);
        }
    }
}

/// Where the first `\n` of `s` sits: the line before it, the remainder
/// after it.
proof fn lemma_line_split_at(s: Seq<char>, i: int)
    requires
        0 <= i < s.len(),
        s[i] == '\n',
        forall|k: int| 0 <= k < i ==> s[k] != '\n',
    ensures
        spec_take_line(s) == s.subrange(0, i),
        spec_after_line(s) == s.skip(i + 1),
    decreases i,
{
    if i == 0 {
        assert(spec_take_line(s) =~= s.subrange(0, 0));
        assert(s.drop_first() =~= s.skip(1));
    } else {
        assert(s.first() != '\n');
        let d = s.drop_first();
        assert(d[i - 1] == '\n');
        assert forall|k: int| 0 <= k < i - 1 implies d[k] != '\n' by {
            assert(d[k] == s[k + 1]);
        }
        lemma_line_split_at(d, i - 1);
        assert(seq![s.first()] + d.subrange(0, i - 1) =~= s.subrange(0, i));
        assert(d.skip(i) =~= s.skip(i + 1));
    }
}

proof fn lemma_line_split_none(s: Seq<char>)
    requires
        forall|k: int| 0 <= k < s.len() ==> s[k] != '\n',
    ensures
        spec_take_line(s) == s,
        spec_after_line(s) == Seq::<char>::empty(),
    decreases s.len(),
{
    if s.len() > 0 {
        let d = s.drop_first();
        assert forall|k: int| 0 <= k < d.len() implies d[k] != '\n' by {
            assert(d[k] == s[k + 1]);
        }
        lemma_line_split_none(d);
        assert(seq![s.first()] + d =~= s);
    }
}

/// A line split at its first `=`: the key before it and the value after
/// it, when the line has one.
pub open spec fn spec_split_eq(line: Seq<char>) -> Option<(Seq<char>, Seq<char>)>
    decreases line.len(),
{
    if line.len() == 0 {
        None
    } else if line.first() == '=' {
        Some((Seq::empty(), line.drop_first()))
    } else {
        match spec_split_eq(line.drop_first()) {
            Some(kv) => Some((seq![line.first()] + kv.0, kv.1)),
            None => None,
        }
    }
}

proof fn lemma_split_eq_at(line: Seq<char>, i: int)
    requires
        0 <= i < line.len(),
        line[i] == '=',
        forall|k: int| 0 <= k < i ==> line[k] != '=',
    ensures
        spec_split_eq(line) == Some((line.subrange(0, i), line.skip(i + 1))),
    decreases i,
{
    if i == 0 {
        assert(line.subrange(0, 0) =~= Seq::<char>::empty());
        assert(line.drop_first() =~= line.skip(1));
    } else {
        assert(line.first() != '=');
        let d = line.drop_first();
        assert(d[i - 1] == '=');
        assert forall|k: int| 0 <= k < i - 1 implies d[k] != '=' by {
            assert(d[k] == line[k + 1]);
        }
        lemma_split_eq_at(d, i - 1);
        assert(seq![line.first()] + d.subrange(0, i - 1) =~= line.subrange(0, i));
        assert(d.skip(i) =~= line.skip(i + 1));
    }
}

proof fn lemma_split_eq_none(line: Seq<char>)
    requires
        forall|k: int| 0 <= k < line.len() ==> line[k] != '=',
    ensures
        spec_split_eq(line) is None,
    decreases line.len(),
{
    if line.len() > 0 {
        let d = line.drop_first();
        assert forall|k: int| 0 <= k < d.len() implies d[k] != '=' by {
            assert(d[k] == line[k + 1]);
        }
        lemma_split_eq_none(d);
    }
}

/// The directive one line parses to, when it holds a `=`.
pub open spec fn spec_parse_line(line: Seq<char>) -> Seq<ConfFieldView> {
    match spec_split_eq(line) {
        Some(kv) => seq![ConfFieldView { key: kv.0, value: kv.1 }],
        None => Seq::empty(),
    }
}

/// The directives a fragment text parses to: one per line that holds a
/// `=`, the key before the first `=` and the value after it; any other
/// line carries none.
pub open spec fn spec_parse_fragment(s: Seq<char>) -> Seq<ConfFieldView>
    decreases s.len(),
    via spec_parse_fragment_decreases
{
    if s.len() == 0 {
        Seq::empty()
    } else {
        spec_parse_line(spec_take_line(s)) + spec_parse_fragment(spec_after_line(s))
    }
}

#[via_fn]
proof fn spec_parse_fragment_decreases(s: Seq<char>) {
    if s.len() > 0 {
        lemma_after_line_shorter(s);
    }
}

/// A rendered fragment is empty or ends with a newline.
proof fn lemma_render_last(fields: Seq<ConfFieldView>)
    ensures
        fields.len() > 0 ==> spec_render(fields).len() > 0 && spec_render(fields).last() == '\n',
{
    reveal_strlit("\n");
    if fields.len() > 0 {
        let prefix = spec_render(fields.drop_last()) + fields.last().key + "="@
            + fields.last().value;
        assert(spec_render(fields) == prefix + "\n"@);
        assert(spec_render(fields).last() == "\n"@[0]);
    }
}

/// Past its first line, a newline-terminated text is still
/// newline-terminated or exhausted.
proof fn lemma_after_line_terminated(s: Seq<char>)
    requires
        s.len() > 0,
        s.last() == '\n',
    ensures
        spec_after_line(s).len() == 0 || spec_after_line(s).last() == '\n',
    decreases s.len(),
{
    if s.first() == '\n' {
        if s.len() > 1 {
            assert(s.drop_first().last() == s.last());
        }
    } else {
        assert(s.len() > 1);
        assert(s.drop_first().last() == s.last());
        lemma_after_line_terminated(s.drop_first());
    }
}

/// The first line of a text with a newline-terminated prefix lies inside
/// that prefix.
proof fn lemma_take_after_append(a: Seq<char>, b: Seq<char>)
    requires
        a.len() > 0,
        a.last() == '\n',
    ensures
        spec_take_line(a + b) == spec_take_line(a),
        spec_after_line(a + b) == spec_after_line(a) + b,
    decreases a.len(),
{
    assert((a + b).len() > 0);
    assert((a + b).first() == a.first());
    if a.first() == '\n' {
        assert((a + b).drop_first() =~= a.drop_first() + b);
        assert(spec_take_line(a + b) =~= spec_take_line(a));
    } else {
        assert(a.len() > 1);
        assert((a + b).drop_first() =~= a.drop_first() + b);
        assert(a.drop_first().last() == a.last());
        lemma_take_after_append(a.drop_first(), b);
        assert(spec_take_line(a + b) =~= spec_take_line(a));
    }
}

/// Parsing splits over a newline-terminated prefix.
proof fn lemma_parse_append(a: Seq<char>, b: Seq<char>)
    requires
        a.len() == 0 || a.last() == '\n',
    ensures
        spec_parse_fragment(a + b) == spec_parse_fragment(a) + spec_parse_fragment(b),
    decreases a.len(),
{
    if a.len() == 0 {
        assert(a + b =~= b);
        assert(spec_parse_fragment(a) + spec_parse_fragment(b) =~= spec_parse_fragment(b));
    } else {
        lemma_take_after_append(a, b);
        lemma_after_line_terminated(a);
        lemma_after_line_shorter(a);
        lemma_parse_append(spec_after_line(a), b);
        assert((a + b).len() > 0);
        assert(spec_parse_fragment(a + b) =~= spec_parse_fragment(a) + spec_parse_fragment(b));
    }
}

/// Law: parsing reads a rendered fragment back exactly, for directives
/// whose keys hold no `=` and no newline and whose values hold no
/// newline — the shape of every directive this crate writes.
pub proof fn lemma_parse_render_roundtrip(fields: Seq<ConfFieldView>)
    requires
        forall|i: int|
            0 <= i < fields.len() ==> (forall|k: int|
                0 <= k < (#[trigger] fields[i]).key.len() ==> fields[i].key[k] != '='
                    && fields[i].key[k] != '\n'),
        forall|i: int|
            0 <= i < fields.len() ==> (forall|k: int|
                0 <= k < (#[trigger] fields[i]).value.len() ==> fields[i].value[k] != '\n'),
    ensures
        spec_parse_fragment(spec_render(fields)) == fields,
    decreases fields.len(),
{
    reveal_strlit("=");
    reveal_strlit("\n");
    if fields.len() > 0 {
        let dl = fields.drop_last();
        let f = fields.last();
        let line = f.key + "="@ + f.value + "\n"@;
        assert(spec_render(fields) =~= spec_render(dl) + line);
        lemma_render_last(dl);
        assert(forall|i: int| 0 <= i < dl.len() ==> #[trigger] dl[i] == fields[i]);
        lemma_parse_render_roundtrip(dl);
        lemma_parse_append(spec_render(dl), line);
        // the one line parses back to the one directive
        let p = line.len() - 1;
        assert(line[p] == '\n') by {
            assert(line[p] == "\n"@[0]);
        }
        assert forall|k: int| 0 <= k < p implies line[k] != '\n' by {
            if k < f.key.len() {
                assert(line[k] == f.key[k]);
            } else if k == f.key.len() {
                assert(line[k] == "="@[0]);
            } else {
                assert(line[k] == f.value[k - f.key.len() - 1]);
            }
        }
        lemma_line_split_at(line, p);
        let linebody = line.subrange(0, p);
        assert(linebody =~= f.key + "="@ + f.value);
        assert(linebody[f.key.len() as int] == '=') by {
            assert(linebody[f.key.len() as int] == "="@[0]);
        }
        assert forall|k: int| 0 <= k < f.key.len() implies linebody[k] != '=' by {
            assert(linebody[k] == f.key[k]);
        }
        lemma_split_eq_at(linebody, f.key.len() as int);
        assert(linebody.subrange(0, f.key.len() as int) =~= f.key);
        assert(linebody.skip(f.key.len() as int + 1) =~= f.value);
        assert(line.skip(p + 1) =~= Seq::<char>::empty());
        assert(spec_parse_line(spec_take_line(line)) =~= seq![f]);
        assert(spec_parse_fragment(Seq::<char>::empty()) == Seq::<ConfFieldView>::empty());
        assert(spec_parse_fragment(line) =~= seq![f]);
        assert(spec_parse_fragment(spec_render(fields)) =~= fields);
    } else {
        assert(spec_render(fields) =~= Seq::<char>::empty());
    }
}

/// Mathematical content of a [`CLNConf`].
#[verifier::ext_equal]
pub ghost struct CLNConfView {
    pub path: Seq<char>,
    pub network: Seq<char>,
    pub fields: Seq<ConfFieldView>,
}

/// The managed configuration fragment for one network.
#[derive(Debug, PartialEq, Eq)]
pub struct CLNConf {
    /// where the fragment is written on disk
    pub path: String,
    /// the network this fragment belongs to
    pub network: String,
    /// the directives of the fragment, in insertion order
    pub fields: Vec<ConfField>,
}

impl View for CLNConf {
    type V = CLNConfView;

    open spec fn view(&self) -> CLNConfView {
        CLNConfView { path: self.path@, network: self.network@, fields: fields_view(self.fields@) }
    }
}

impl Clone for CLNConf {
    fn clone(&self) -> (r: Self)
        ensures
            r@ == self@,
    {
        let r = CLNConf {
            path: self.path.clone(),
            network: self.network.clone(),
            fields: self.fields.clone(),
        };
        proof {
            assert(fields_view(r.fields@) =~= fields_view(self.fields@));
            assert(r@ =~= self@);
        }
        r
    }
}

impl CLNConf {
    /// A fresh, empty fragment for a network, to be written at `path`.
    pub fn new(network: &str, path: &str) -> (r: Self)
        ensures
            r@.path == path@,
            r@.network == network@,
            r@.fields == Seq::<ConfFieldView>::empty(),
    {
        let r = CLNConf { path: path.to_owned(), network: network.to_owned(), fields: Vec::new() };
        proof {
            assert(fields_view(r.fields@) =~= Seq::<ConfFieldView>::empty());
        }
        r
    }

    /// Append a directive at the end of the fragment.
    pub fn add_conf(&mut self, key: &str, val: &str)
        ensures
            final(self)@.fields == old(self)@.fields.push(
                ConfFieldView { key: key@, value: val@ },
            ),
            final(self)@.path == old(self)@.path,
            final(self)@.network == old(self)@.network,
    {
        self.fields.push(ConfField { key: key.to_owned(), value: val.to_owned() });
        proof {
            assert(fields_view(self.fields@) =~= fields_view(old(self).fields@).push(
                ConfFieldView { key: key@, value: val@ },
            ));
        }
    }

    /// Whether the fragment holds a directive with this key and value.
    pub fn has_field(&self, key: &str, value: Option<&str>) -> (r: bool)
        ensures
            r == spec_has_field(self@.fields, key@, match value {
                Some(v) => Some(v@),
                None => None,
            }),
    {
        let ghost vspec: Option<Seq<char>> = match value {
            Some(v) => Some(v@),
            None => None,
        };
        let mut i: usize = 0;
        while i < self.fields.len()
            invariant
                0 <= i <= self.fields.len(),
                !spec_has_field(self@.fields.take(i as int), key@, vspec),
                vspec == (match value {
                    Some(v) => Some(v@),
                    None => None,
                }),
            decreases self.fields.len() - i,
        {
            let f = &self.fields[i];
            let key_eq = crate::text::eq_str(f.key.as_str(), key);
            let matches = if key_eq {
                match value {
                    Some(v) => crate::text::eq_str(f.value.as_str(), v),
                    None => true,
                }
            } else {
                false
            };
            if matches {
                proof {
                    assert(spec_field_matches(self@.fields[i as int], key@, vspec));
                }
                return true;
            }
            proof {
                assert(self@.fields.take(i + 1 as int) =~= self@.fields.take(i as int).push(
                    self@.fields[i as int],
                ));
                if spec_has_field(self@.fields.take(i + 1 as int), key@, vspec) {
                    let j = choose|j: int|
                        0 <= j < i + 1 && #[trigger] spec_field_matches(
                            self@.fields.take(i + 1 as int)[j],
                            key@,
                            vspec,
                        );
                    if j < i {
                        assert(spec_field_matches(self@.fields.take(i as int)[j], key@, vspec));
                    }
                    assert(false);
                }
            }
            i = i + 1;
        }
        proof {
            assert(self@.fields.take(self.fields.len() as int) =~= self@.fields);
        }
        false
    }

    /// Remove every directive that matches the key and, when one is given,
    /// the value.  It is an error when nothing matches; the fragment is
    /// then left as it was.
    pub fn rm_conf(&mut self, key: &str, value: Option<&str>) -> (r: Result<(), CoffeeError>)
        ensures
            ({
                let vspec = match value {
                    Some(v) => Some(v@),
                    None => None,
                };
                &&& (r is Ok <==> spec_has_field(old(self)@.fields, key@, vspec))
                &&& r is Ok ==> final(self)@.fields == spec_rm_field(
                    old(self)@.fields,
                    key@,
                    vspec,
                )
                &&& r is Err ==> final(self)@ == old(self)@ && r->Err_0.code == CODE_GENERIC
            }),
            final(self)@.path == old(self)@.path,
            final(self)@.network == old(self)@.network,
    {
        let ghost vspec: Option<Seq<char>> = match value {
            Some(v) => Some(v@),
            None => None,
        };
        if !self.has_field(key, value) {
            return Err(CoffeeError::new(CODE_GENERIC, "field not present"));
        }
        let mut kept: Vec<ConfField> = Vec::new();
        let mut i: usize = 0;
        while i < self.fields.len()
            invariant
                0 <= i <= self.fields.len(),
                fields_view(kept@) == spec_rm_field(
                    fields_view(self.fields@).take(i as int),
                    key@,
                    vspec,
                ),
                vspec == (match value {
                    Some(v) => Some(v@),
                    None => None,
                }),
            decreases self.fields.len() - i,
        {
            let f = &self.fields[i];
            let key_eq = crate::text::eq_str(f.key.as_str(), key);
            let matches = if key_eq {
                match value {
                    Some(v) => crate::text::eq_str(f.value.as_str(), v),
                    None => true,
                }
            } else {
                false
            };
            proof {
                let fv = fields_view(self.fields@);
                assert(fv.take(i + 1 as int) =~= fv.take(i as int).push(fv[i as int]));
                assert(fv.take(i + 1 as int).drop_last() =~= fv.take(i as int));
            }
            if !matches {
                let ghost kept0 = kept@;
                kept.push(f.clone());
                proof {
                    assert(fields_view(kept@) =~= fields_view(kept0).push(
                        fields_view(self.fields@)[i as int],
                    ));
                }
            }
            i = i + 1;
        }
        proof {
            assert(fields_view(self.fields@).take(self.fields.len() as int) =~= fields_view(
                self.fields@,
            ));
        }
        self.fields = kept;
        Ok(())
    }

    /// The full text of the fragment, one `key=value` line per directive.
    pub fn render(&self) -> (r: String)
        ensures
            r@ == spec_render(self@.fields),
    {
        let mut out = String::new();
        let mut i: usize = 0;
        while i < self.fields.len()
            invariant
                0 <= i <= self.fields.len(),
                out@ == spec_render(fields_view(self.fields@).take(i as int)),
            decreases self.fields.len() - i,
        {
            let f = &self.fields[i];
            out.append(f.key.as_str());
            out.append("=");
            out.append(f.value.as_str());
            out.append("\n");
            proof {
                let fv = fields_view(self.fields@);
                assert(fv.take(i + 1 as int) =~= fv.take(i as int).push(fv[i as int]));
                assert(fv.take(i + 1 as int).drop_last() =~= fv.take(i as int));
            }
            i = i + 1;
        }
        proof {
            assert(fields_view(self.fields@).take(self.fields.len() as int) =~= fields_view(
                self.fields@,
            ));
        }
        out
    }

    /// Read a fragment back from its text: one directive per line that
    /// holds a `=`, split at the first one; any other line carries none.
    pub fn parse(network: &str, path: &str, content: &str) -> (r: Self)
        ensures
            r@.network == network@,
            r@.path == path@,
            r@.fields == spec_parse_fragment(content@),
    {
        let mut conf = CLNConf::new(network, path);
        let n = content.unicode_len();
        let mut pos: usize = 0;
        proof {
            assert(content@.skip(0) =~= content@);
        }
        while pos < n
            invariant
                0 <= pos <= n,
                n == content@.len(),
                conf@.network == network@,
                conf@.path == path@,
                spec_parse_fragment(content@) == conf@.fields + spec_parse_fragment(
                    content@.skip(pos as int),
                ),
            decreases n - pos,
        {
            let ghost suffix = content@.skip(pos as int);
            // find the end of this line
            let mut end: usize = pos;
            while end < n && content.get_char(end) != '\n'
                invariant
                    pos <= end <= n,
                    n == content@.len(),
                    forall|j: int| pos <= j < end ==> content@[j] != '\n',
                decreases n - end,
            {
                end = end + 1;
            }
            proof {
                assert forall|k: int| 0 <= k < end - pos implies suffix[k] != '\n' by {
                    assert(suffix[k] == content@[pos + k]);
                }
                if end < n {
                    assert(suffix[end - pos] == content@[end as int]);
                    lemma_line_split_at(suffix, end - pos);
                    assert(spec_after_line(suffix) =~= content@.skip(end + 1 as int));
                } else {
                    lemma_line_split_none(suffix);
                }
                assert(spec_take_line(suffix) =~= content@.subrange(pos as int, end as int));
            }
            let line = content.substring_char(pos, end);
            // find the first `=` of the line
            let line_len = end - pos;
            let mut eq: usize = 0;
            while eq < line_len && line.get_char(eq) != '='
                invariant
                    0 <= eq <= line_len,
                    line@.len() == line_len,
                    forall|j: int| 0 <= j < eq ==> line@[j] != '=',
                decreases line_len - eq,
            {
                eq = eq + 1;
            }
            let ghost conf0 = conf@.fields;
            if eq < line_len {
                let key = line.substring_char(0, eq);
                let value = line.substring_char(eq + 1, line_len);
                proof {
                    lemma_split_eq_at(line@, eq as int);
                    assert(line@.skip(eq + 1 as int) =~= line@.subrange(
                        eq + 1 as int,
                        line@.len() as int,
                    ));
                }
                conf.add_conf(key, value);
                proof {
                    assert(conf@.fields =~= conf0 + spec_parse_line(line@));
                }
            } else {
                proof {
                    lemma_split_eq_none(line@);
                    assert(conf@.fields =~= conf0 + spec_parse_line(line@));
                }
            }
            let next = if end < n {
                end + 1
            } else {
                n
            };
            proof {
                assert(suffix.len() > 0);
                assert(spec_parse_line(spec_take_line(suffix)) == spec_parse_line(line@));
                if end < n {
                    assert(spec_after_line(suffix) == content@.skip(next as int));
                } else {
                    assert(spec_after_line(suffix) =~= content@.skip(next as int));
                }
                assert(spec_parse_fragment(content@) =~= conf@.fields + spec_parse_fragment(
                    content@.skip(next as int),
                ));
            }
            pos = next;
        }
        proof {
            assert(content@.skip(n as int) =~= Seq::<char>::empty());
            assert(spec_parse_fragment(Seq::<char>::empty()) == Seq::<ConfFieldView>::empty());
            assert(conf@.fields + Seq::<ConfFieldView>::empty() =~= conf@.fields);
        }
        conf
    }
}

} // verus!
