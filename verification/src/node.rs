//! The canonical graph element: an ordered list of `key: value` fields, where
//! repeated keys make a multi-value field. Unknown keys round-trip untouched.
use vstd::prelude::*;

use crate::text::{
    first_index, is_trimmed, is_ws, lacks, lemma_first_index, lemma_first_index_at,
    lemma_trim_end_prefix, lemma_trim_keeps_lacks, lemma_trim_piece, lemma_trim_start_take,
    lemma_trim_start_ws_prefix, lemma_trim_trimmed, trim, trim_end, trim_start, chars_of,
    find_char, push_char, push_str, str_eq, string_of, to_owned, trim_range,
};

verus! {

/// One field as pure data: (key, value).
pub type Field = (Seq<char>, Seq<char>);

/// A node: ordered fields, multi-value via repeated keys.
#[derive(Debug, Clone)]
pub struct Node {
    pub fields: Vec<(String, String)>,
}

impl View for Node {
    type V = Seq<Field>;

    open spec fn view(&self) -> Seq<Field> {
        self.fields@.map_values(|f: (String, String)| (f.0@, f.1@))
    }
}

// ─── spec model ─────────────────────────────────────────────────────────────

/// Index of the first field whose key is `k`, or `fs.len()` when there is none.
pub open spec fn key_pos(fs: Seq<Field>, k: Seq<char>) -> int
    decreases fs.len(),
{
    if fs.len() == 0 {
        0
    } else if fs[0].0 == k {
        0
    } else {
        1 + key_pos(fs.drop_first(), k)
    }
}

/// The value of the first field keyed `k`.
pub open spec fn spec_get(fs: Seq<Field>, k: Seq<char>) -> Option<Seq<char>> {
    if key_pos(fs, k) < fs.len() {
        Some(fs[key_pos(fs, k)].1)
    } else {
        None
    }
}

/// Every value keyed `k`, in field order.
pub open spec fn spec_all(fs: Seq<Field>, k: Seq<char>) -> Seq<Seq<char>>
    decreases fs.len(),
{
    if fs.len() == 0 {
        Seq::empty()
    } else if fs.last().0 == k {
        spec_all(fs.drop_last(), k).push(fs.last().1)
    } else {
        spec_all(fs.drop_last(), k)
    }
}

/// Replace the first field keyed `k`, else append `(k, v)`.
pub open spec fn spec_set(fs: Seq<Field>, k: Seq<char>, v: Seq<char>) -> Seq<Field> {
    if key_pos(fs, k) < fs.len() {
        fs.update(key_pos(fs, k), (k, v))
    } else {
        fs.push((k, v))
    }
}

/// Append `(k, v)` unless that exact field is already present.
pub open spec fn spec_push(fs: Seq<Field>, k: Seq<char>, v: Seq<char>) -> Seq<Field> {
    if fs.contains((k, v)) {
        fs
    } else {
        fs.push((k, v))
    }
}

/// Every field whose key is not `k`, in order.
pub open spec fn spec_unset(fs: Seq<Field>, k: Seq<char>) -> Seq<Field>
    decreases fs.len(),
{
    if fs.len() == 0 {
        fs
    } else if fs.last().0 == k {
        spec_unset(fs.drop_last(), k)
    } else {
        spec_unset(fs.drop_last(), k).push(fs.last())
    }
}

/// Every field other than `(k, v)`, in order.
pub open spec fn spec_remove(fs: Seq<Field>, k: Seq<char>, v: Seq<char>) -> Seq<Field>
    decreases fs.len(),
{
    if fs.len() == 0 {
        fs
    } else if fs.last() == (k, v) {
        spec_remove(fs.drop_last(), k, v)
    } else {
        spec_remove(fs.drop_last(), k, v).push(fs.last())
    }
}

/// One serialized line: `key: value` and a newline.
pub open spec fn line_of(f: Field) -> Seq<char> {
    f.0 + seq![':', ' '] + f.1 + seq!['\n']
}

/// The serialized text of a field list.
pub open spec fn text_of(fs: Seq<Field>) -> Seq<char>
    decreases fs.len(),
{
    if fs.len() == 0 {
        Seq::empty()
    } else {
        line_of(fs[0]) + text_of(fs.drop_first())
    }
}

/// The field one text line yields: blank lines and `#` comments yield none, and
/// so does a line with no `:`. Key and value are split at the first `:` and trimmed.
pub open spec fn field_of(l: Seq<char>) -> Option<Field> {
    if trim(l).len() == 0 || trim_start(l)[0] == '#' {
        None
    } else if first_index(l, ':') < l.len() {
        Some((trim(l.take(first_index(l, ':'))), trim(l.skip(first_index(l, ':') + 1))))
    } else {
        None
    }
}

pub open spec fn opt_seq(o: Option<Field>) -> Seq<Field> {
    match o {
        Some(f) => seq![f],
        None => Seq::empty(),
    }
}

/// The fields of a text: one per line that holds a field, in line order.
pub open spec fn spec_parse(s: Seq<char>) -> Seq<Field>
    decreases s.len(),
{
    let i = first_index(s, '\n');
    if i < s.len() {
        proof {
            lemma_first_index(s, '\n');
        }
        opt_seq(field_of(s.take(i))) + spec_parse(s.skip(i + 1))
    } else {
        opt_seq(field_of(s))
    }
}

/// A key that serializes and parses back unchanged.
pub open spec fn wf_key(k: Seq<char>) -> bool {
    &&& lacks(k, '\n')
    &&& lacks(k, ':')
    &&& is_trimmed(k)
    &&& (k.len() == 0 || k[0] != '#')
}

/// A value that serializes and parses back unchanged.
pub open spec fn wf_value(v: Seq<char>) -> bool {
    lacks(v, '\n') && is_trimmed(v)
}

pub open spec fn wf_fields(fs: Seq<Field>) -> bool {
    forall|i: int| 0 <= i < fs.len() ==> wf_key(#[trigger] fs[i].0) && wf_value(fs[i].1)
}

// ─── lemmas ─────────────────────────────────────────────────────────────────

proof fn lemma_key_pos(fs: Seq<Field>, k: Seq<char>)
    ensures
        0 <= key_pos(fs, k) <= fs.len(),
        forall|j: int| 0 <= j < key_pos(fs, k) ==> fs[j].0 != k,
        key_pos(fs, k) < fs.len() ==> fs[key_pos(fs, k)].0 == k,
    decreases fs.len(),
{
    if fs.len() > 0 && fs[0].0 != k {
        lemma_key_pos(fs.drop_first(), k);
        assert forall|j: int| 0 <= j < key_pos(fs, k) implies fs[j].0 != k by {
            if j > 0 {
                assert(fs[j] == fs.drop_first()[j - 1]);
            }
        }
    }
}

proof fn lemma_key_pos_at(fs: Seq<Field>, k: Seq<char>, i: int)
    requires
        0 <= i <= fs.len(),
        forall|j: int| 0 <= j < i ==> fs[j].0 != k,
        i < fs.len() ==> fs[i].0 == k,
    ensures
        key_pos(fs, k) == i,
    decreases fs.len(),
{
    if fs.len() > 0 && i > 0 {
        assert forall|j: int| 0 <= j < i - 1 implies fs.drop_first()[j].0 != k by {
            assert(fs.drop_first()[j] == fs[j + 1]);
        }
        lemma_key_pos_at(fs.drop_first(), k, i - 1);
    }
}

proof fn lemma_text_of_push(fs: Seq<Field>, f: Field)
    ensures
        text_of(fs.push(f)) == text_of(fs) + line_of(f),
    decreases fs.len(),
{
    if fs.len() == 0 {
        assert(fs.push(f).drop_first() =~= Seq::<Field>::empty());
        assert(text_of(fs.push(f)) =~= line_of(f) + text_of(Seq::<Field>::empty()));
        assert(text_of(fs) + line_of(f) =~= line_of(f));
    } else {
        assert(fs.push(f).drop_first() =~= fs.drop_first().push(f));
        lemma_text_of_push(fs.drop_first(), f);
        assert(fs.push(f)[0] == fs[0]);
        assert(text_of(fs.push(f)) =~= line_of(fs[0]) + (text_of(fs.drop_first()) + line_of(f)));
    }
}

/// A well-formed field's line parses back to that field.
proof fn lemma_field_line(k: Seq<char>, v: Seq<char>)
    requires
        wf_key(k),
        wf_value(v),
    ensures
        field_of(k + seq![':', ' '] + v) == Some((k, v)),
{
    let l = k + seq![':', ' '] + v;
    assert(l[k.len() as int] == ':');
    // trim_start(l) == l: the first character is not white space.
    if k.len() > 0 {
        assert(l[0] == k[0]);
    }
    assert(!is_ws(l[0]));
    assert(trim_start(l) == l);
    assert(trim_start(l)[0] != '#');
    lemma_trim_end_prefix(l);
    if trim_end(l).len() == 0 {
        assert(is_ws(l[k.len() as int]));
    }
    assert(trim(l).len() > 0);
    assert forall|j: int| 0 <= j < k.len() implies l[j] != ':' by {
        assert(l[j] == k[j]);
    }
    lemma_first_index_at(l, ':', k.len() as int);
    assert(l.take(k.len() as int) =~= k);
    lemma_trim_trimmed(k);
    let rest = l.skip(k.len() as int + 1);
    assert(rest =~= seq![' '] + v);
    lemma_trim_start_ws_prefix(seq![' '], v);
    lemma_trim_trimmed(v);
    assert(trim(rest) == v);
}

/// A line's field, when there is one, is well formed.
proof fn lemma_field_wf(l: Seq<char>)
    requires
        lacks(l, '\n'),
        field_of(l) is Some,
    ensures
        wf_key(field_of(l).unwrap().0),
        wf_value(field_of(l).unwrap().1),
{
    let p = first_index(l, ':');
    lemma_first_index(l, ':');
    let kl = l.take(p);
    let vl = l.skip(p + 1);
    assert(lacks(kl, '\n') && lacks(kl, ':')) by {
        assert forall|i: int| 0 <= i < kl.len() implies kl[i] != '\n' && kl[i] != ':' by {
            assert(kl[i] == l[i]);
        }
    }
    assert(lacks(vl, '\n')) by {
        assert forall|i: int| 0 <= i < vl.len() implies vl[i] != '\n' by {
            assert(vl[i] == l[i + p + 1]);
        }
    }
    lemma_trim_keeps_lacks(kl, '\n');
    lemma_trim_keeps_lacks(kl, ':');
    lemma_trim_keeps_lacks(vl, '\n');
    lemma_trim_piece(kl);
    lemma_trim_piece(vl);
    let k = trim(kl);
    if k.len() > 0 {
        lemma_trim_end_prefix(trim_start(kl));
        assert(k[0] == trim_start(kl)[0]);
        lemma_trim_start_take(l, p);
    }
}

proof fn lemma_parse_wf(s: Seq<char>)
    ensures
        wf_fields(spec_parse(s)),
    decreases s.len(),
{
    let i = first_index(s, '\n');
    lemma_first_index(s, '\n');
    if i < s.len() {
        let l = s.take(i);
        assert forall|j: int| 0 <= j < l.len() implies l[j] != '\n' by {
            assert(l[j] == s[j]);
        }
        if field_of(l) is Some {
            lemma_field_wf(l);
        }
        lemma_parse_wf(s.skip(i + 1));
        let a = opt_seq(field_of(l));
        let b = spec_parse(s.skip(i + 1));
        assert forall|j: int| 0 <= j < (a + b).len() implies wf_key(#[trigger] (a + b)[j].0) && wf_value(
            (a + b)[j].1,
        ) by {
            if j >= a.len() {
                assert((a + b)[j] == b[j - a.len()]);
            }
        }
    } else {
        if field_of(s) is Some {
            lemma_field_wf(s);
        }
    }
}

proof fn lemma_parse_text_of(fs: Seq<Field>)
    requires
        wf_fields(fs),
    ensures
        spec_parse(text_of(fs)) == fs,
    decreases fs.len(),
{
    if fs.len() == 0 {
        let e = Seq::<char>::empty();
        assert(text_of(fs) == e);
        assert(first_index(e, '\n') == 0);
        assert(trim_start(e) == e);
        assert(trim_end(e) == e);
        assert(field_of(e) is None);
        assert(spec_parse(text_of(fs)) =~= fs);
    } else {
        let (k, v) = fs[0];
        assert(wf_key(fs[0].0) && wf_value(fs[0].1));
        let l = k + seq![':', ' '] + v;
        let rest = fs.drop_first();
        assert(wf_fields(rest)) by {
            assert forall|i: int| 0 <= i < rest.len() implies wf_key(#[trigger] rest[i].0)
                && wf_value(rest[i].1) by {
                assert(rest[i] == fs[i + 1]);
            }
        }
        let t = text_of(fs);
        assert(t =~= l + seq!['\n'] + text_of(rest));
        assert forall|j: int| 0 <= j < l.len() implies t[j] != '\n' by {
            assert(t[j] == l[j]);
            if j < k.len() {
                assert(l[j] == k[j]);
            } else if j >= k.len() + 2 {
                assert(l[j] == v[j - k.len() - 2]);
            }
        }
        assert(t[l.len() as int] == '\n');
        lemma_first_index_at(t, '\n', l.len() as int);
        assert(t.take(l.len() as int) =~= l);
        assert(t.skip(l.len() as int + 1) =~= text_of(rest));
        lemma_field_line(k, v);
        lemma_parse_text_of(rest);
        assert(spec_parse(t) =~= seq![(k, v)] + rest);
        assert(seq![(k, v)] + rest =~= fs);
    }
}

proof fn lemma_all_drop_last_prefix(fs: Seq<Field>, k: Seq<char>, i: int)
    requires
        0 <= i < fs.len(),
    ensures
        spec_all(fs.take(i + 1), k) == if fs[i].0 == k {
            spec_all(fs.take(i), k).push(fs[i].1)
        } else {
            spec_all(fs.take(i), k)
        },
{
    assert(fs.take(i + 1).drop_last() =~= fs.take(i));
}

proof fn lemma_unset_prefix(fs: Seq<Field>, k: Seq<char>, i: int)
    requires
        0 <= i < fs.len(),
    ensures
        spec_unset(fs.take(i + 1), k) == if fs[i].0 == k {
            spec_unset(fs.take(i), k)
        } else {
            spec_unset(fs.take(i), k).push(fs[i])
        },
{
    assert(fs.take(i + 1).drop_last() =~= fs.take(i));
}

proof fn lemma_remove_prefix(fs: Seq<Field>, k: Seq<char>, v: Seq<char>, i: int)
    requires
        0 <= i < fs.len(),
    ensures
        spec_remove(fs.take(i + 1), k, v) == if fs[i] == (k, v) {
            spec_remove(fs.take(i), k, v)
        } else {
            spec_remove(fs.take(i), k, v).push(fs[i])
        },
{
    assert(fs.take(i + 1).drop_last() =~= fs.take(i));
}

proof fn lemma_all_update(fs: Seq<Field>, k2: Seq<char>, i: int, f: Field)
    requires
        0 <= i < fs.len(),
        fs[i].0 != k2,
        f.0 != k2,
    ensures
        spec_all(fs.update(i, f), k2) == spec_all(fs, k2),
    decreases fs.len(),
{
    let u = fs.update(i, f);
    if i == fs.len() - 1 {
        assert(u.drop_last() =~= fs.drop_last());
    } else {
        assert(u.drop_last() =~= fs.drop_last().update(i, f));
        lemma_all_update(fs.drop_last(), k2, i, f);
    }
}

proof fn lemma_unset_lacks(fs: Seq<Field>, k: Seq<char>)
    ensures
        forall|j: int| 0 <= j < spec_unset(fs, k).len() ==> #[trigger] spec_unset(fs, k)[j].0 != k,
    decreases fs.len(),
{
    if fs.len() > 0 {
        lemma_unset_lacks(fs.drop_last(), k);
        let r = spec_unset(fs.drop_last(), k);
        if fs.last().0 != k {
            assert forall|j: int| 0 <= j < r.push(fs.last()).len() implies #[trigger] r.push(
                fs.last(),
            )[j].0 != k by {
                if j < r.len() {
                    assert(r.push(fs.last())[j] == r[j]);
                }
            }
        }
    }
}

proof fn lemma_all_unset_other(fs: Seq<Field>, k: Seq<char>, k2: Seq<char>)
    requires
        k != k2,
    ensures
        spec_all(spec_unset(fs, k), k2) == spec_all(fs, k2),
    decreases fs.len(),
{
    if fs.len() > 0 {
        lemma_all_unset_other(fs.drop_last(), k, k2);
        if fs.last().0 != k {
            let u = spec_unset(fs.drop_last(), k).push(fs.last());
            assert(u.drop_last() =~= spec_unset(fs.drop_last(), k));
        }
    }
}

proof fn lemma_remove_lacks(fs: Seq<Field>, k: Seq<char>, v: Seq<char>)
    ensures
        !spec_remove(fs, k, v).contains((k, v)),
    decreases fs.len(),
{
    if fs.len() > 0 {
        lemma_remove_lacks(fs.drop_last(), k, v);
        let r = spec_remove(fs.drop_last(), k, v);
        if fs.last() != (k, v) {
            assert forall|j: int| 0 <= j < r.push(fs.last()).len() implies r.push(fs.last())[j]
                != (k, v) by {
                if j < r.len() {
                    assert(r.push(fs.last())[j] == r[j]);
                }
            }
        }
    }
}

proof fn lemma_all_contains(fs: Seq<Field>, k: Seq<char>, i: int)
    requires
        0 <= i < fs.len(),
        fs[i].0 == k,
    ensures
        spec_all(fs, k).contains(fs[i].1),
    decreases fs.len(),
{
    if i == fs.len() - 1 {
        assert(spec_all(fs, k).last() == fs[i].1);
    } else {
        assert(fs.drop_last()[i] == fs[i]);
        lemma_all_contains(fs.drop_last(), k, i);
        let a = spec_all(fs.drop_last(), k);
        let j = choose|j: int| 0 <= j < a.len() && a[j] == fs[i].1;
        if fs.last().0 == k {
            assert(a.push(fs.last().1)[j] == a[j]);
        }
    }
}

/// `get(k)` reads the first of the values `all(k)` lists.
pub proof fn lemma_get_first_all(fs: Seq<Field>, k: Seq<char>)
    ensures
        spec_get(fs, k) == (if spec_all(fs, k).len() > 0 {
            Some(spec_all(fs, k)[0])
        } else {
            None
        }),
    decreases fs.len(),
{
    if fs.len() > 0 {
        let d = fs.drop_last();
        lemma_get_first_all(d, k);
        lemma_key_pos(d, k);
        lemma_key_pos(fs, k);
        if key_pos(d, k) < d.len() {
            assert forall|j: int| 0 <= j < key_pos(d, k) implies fs[j].0 != k by {
                assert(fs[j] == d[j]);
            }
            lemma_key_pos_at(fs, k, key_pos(d, k));
            assert(fs[key_pos(d, k)] == d[key_pos(d, k)]);
            if fs.last().0 == k {
                assert(spec_all(fs, k) == spec_all(d, k).push(fs.last().1));
            }
        } else {
            assert forall|j: int| 0 <= j < d.len() implies fs[j].0 != k by {
                assert(fs[j] == d[j]);
            }
            if fs.last().0 == k {
                lemma_key_pos_at(fs, k, d.len() as int);
            } else {
                lemma_key_pos_at(fs, k, fs.len() as int);
            }
        }
    }
}

// ─── laws ───────────────────────────────────────────────────────────────────

/// Serializing a well-formed node and parsing the text back gives the same node:
/// every field, unknown keys and repeated keys included, in the same order.
pub proof fn law_parse_inverts_to_text(fs: Seq<Field>)
    requires
        wf_fields(fs),
    ensures
        spec_parse(text_of(fs)) == fs,
{
    lemma_parse_text_of(fs);
}

/// Whatever text is parsed, the node it yields is well formed, so a
/// parse → serialize → reparse → serialize cycle is stable: reparsing gives the
/// same fields and reserializing gives the same text.
pub proof fn law_parse_is_canonical(s: Seq<char>)
    ensures
        wf_fields(spec_parse(s)),
        spec_parse(text_of(spec_parse(s))) == spec_parse(s),
        text_of(spec_parse(text_of(spec_parse(s)))) == text_of(spec_parse(s)),
{
    lemma_parse_wf(s);
    lemma_parse_text_of(spec_parse(s));
}

/// After `set_field(k, v)`, `get(k)` reads `v`, and every other key keeps all
/// its values.
pub proof fn law_set_then_get(fs: Seq<Field>, k: Seq<char>, v: Seq<char>, k2: Seq<char>)
    ensures
        spec_get(spec_set(fs, k, v), k) == Some(v),
        k2 != k ==> spec_all(spec_set(fs, k, v), k2) == spec_all(fs, k2),
{
    lemma_key_pos(fs, k);
    let p = key_pos(fs, k);
    let s = spec_set(fs, k, v);
    if p < fs.len() {
        assert forall|j: int| 0 <= j < p implies s[j].0 != k by {
            assert(s[j] == fs[j]);
        }
        lemma_key_pos_at(s, k, p);
        if k2 != k {
            lemma_all_update(fs, k2, p, (k, v));
        }
    } else {
        assert forall|j: int| 0 <= j < fs.len() implies s[j].0 != k by {
            assert(s[j] == fs[j]);
        }
        lemma_key_pos_at(s, k, fs.len() as int);
        if k2 != k {
            assert(s.drop_last() =~= fs);
        }
    }
}

/// `push_field(k, v)` makes `v` one of the values of `k`, and pushing the same
/// field twice is the same as pushing it once.
pub proof fn law_push_is_idempotent(fs: Seq<Field>, k: Seq<char>, v: Seq<char>)
    ensures
        spec_all(spec_push(fs, k, v), k).contains(v),
        spec_push(spec_push(fs, k, v), k, v) == spec_push(fs, k, v),
{
    let p = spec_push(fs, k, v);
    if fs.contains((k, v)) {
        let i = choose|i: int| 0 <= i < fs.len() && fs[i] == (k, v);
        lemma_all_contains(fs, k, i);
    } else {
        assert(p[fs.len() as int] == (k, v));
        lemma_all_contains(p, k, fs.len() as int);
        assert(p.contains((k, v)));
    }
}

/// After `unset_field(k)` no value of `k` is left and every other key keeps all
/// its values.
pub proof fn law_unset_clears_only_its_key(fs: Seq<Field>, k: Seq<char>, k2: Seq<char>)
    ensures
        spec_get(spec_unset(fs, k), k) is None,
        k2 != k ==> spec_all(spec_unset(fs, k), k2) == spec_all(fs, k2),
{
    lemma_unset_lacks(fs, k);
    lemma_key_pos(spec_unset(fs, k), k);
    if k2 != k {
        lemma_all_unset_other(fs, k, k2);
    }
}

/// After `remove_value(k, v)` the field `(k, v)` is gone.
pub proof fn law_remove_value_removes(fs: Seq<Field>, k: Seq<char>, v: Seq<char>)
    ensures
        !spec_remove(fs, k, v).contains((k, v)),
{
    lemma_remove_lacks(fs, k, v);
}

// ─── executable ─────────────────────────────────────────────────────────────

impl Node {
    /// The value of the first field keyed `k`.
    pub fn get(&self, k: &str) -> (r: Option<&str>)
        ensures
            match r {
                Some(v) => spec_get(self@, k@) == Some(v@),
                None => spec_get(self@, k@) is None,
            },
    {
        let mut i: usize = 0;
        while i < self.fields.len()
            invariant
                i <= self.fields.len(),
                forall|j: int| 0 <= j < i ==> self@[j].0 != k@,
            decreases self.fields.len() - i,
        {
            if str_eq(self.fields[i].0.as_str(), k) {
                proof {
                    lemma_key_pos_at(self@, k@, i as int);
                }
                return Some(self.fields[i].1.as_str());
            }
            i += 1;
        }
        proof {
            lemma_key_pos_at(self@, k@, i as int);
        }
        None
    }

    /// Every value keyed `k`, in field order.
    pub fn all(&self, k: &str) -> (r: Vec<&str>)
        ensures
            r@.len() == spec_all(self@, k@).len(),
            forall|j: int| 0 <= j < r@.len() ==> #[trigger] r@[j]@ == spec_all(self@, k@)[j],
    {
        let mut out: Vec<&str> = Vec::new();
        let mut i: usize = 0;
        while i < self.fields.len()
            invariant
                i <= self.fields.len(),
                out@.len() == spec_all(self@.take(i as int), k@).len(),
                forall|j: int|
                    0 <= j < out@.len() ==> #[trigger] out@[j]@ == spec_all(
                        self@.take(i as int),
                        k@,
                    )[j],
            decreases self.fields.len() - i,
        {
            proof {
                lemma_all_drop_last_prefix(self@, k@, i as int);
            }
            if str_eq(self.fields[i].0.as_str(), k) {
                out.push(self.fields[i].1.as_str());
            }
            i += 1;
        }
        assert(self@.take(i as int) =~= self@);
        out
    }

    /// Serialize: `key: value`, one per line, in field order.
    pub fn to_text(&self) -> (r: String)
        ensures
            r@ == text_of(self@),
    {
        let mut s = String::new();
        let mut i: usize = 0;
        while i < self.fields.len()
            invariant
                i <= self.fields.len(),
                s@ == text_of(self@.take(i as int)),
            decreases self.fields.len() - i,
        {
            push_str(&mut s, self.fields[i].0.as_str());
            push_str(&mut s, ": ");
            push_str(&mut s, self.fields[i].1.as_str());
            push_char(&mut s, '\n');
            proof {
                reveal_strlit(": ");
                assert(self@.take(i + 1) =~= self@.take(i as int).push(self@[i as int]));
                lemma_text_of_push(self@.take(i as int), self@[i as int]);
                assert(text_of(self@.take(i + 1)) =~= text_of(self@.take(i as int)) + line_of(
                    self@[i as int],
                ));
            }
            i += 1;
        }
        assert(self@.take(i as int) =~= self@);
        s
    }

    /// Parse `key: value` lines. Blank lines and `#` comments are skipped, and so
    /// is a line with no `:`; key and value split at the first `:` and are trimmed.
    pub fn parse(text: &str) -> (r: Node)
        ensures
            r@ == spec_parse(text@),
    {
        let t = chars_of(text);
        let n = t.len();
        let mut fields: Vec<(String, String)> = Vec::new();
        let mut pos: usize = 0;
        assert(t@.skip(0) =~= t@);
        loop
            invariant
                n == t.len(),
                t@ == text@,
                pos <= n,
                fields@.map_values(|f: (String, String)| (f.0@, f.1@)) + spec_parse(
                    t@.skip(pos as int),
                ) == spec_parse(text@),
            decreases n - pos,
        {
            let e = find_char(&t, '\n', pos, n);
            let ghost s = t@.skip(pos as int);
            let ghost l = t@.subrange(pos as int, e as int);
            let ghost before = fields@.map_values(|f: (String, String)| (f.0@, f.1@));
            proof {
                assert(s =~= t@.subrange(pos as int, n as int));
                assert(s.take(e - pos) =~= l);
            }
            let (a, b) = trim_range(&t, pos, e);
            let mut pushed = false;
            if a < b && t[a] != '#' {
                let p = find_char(&t, ':', pos, e);
                if p < e {
                    let (ka, kb) = trim_range(&t, pos, p);
                    let (va, vb) = trim_range(&t, p + 1, e);
                    let key = string_of(&t, ka, kb);
                    let value = string_of(&t, va, vb);
                    fields.push((key, value));
                    pushed = true;
                    proof {
                        assert(l.take(p - pos) =~= t@.subrange(pos as int, p as int));
                        assert(l.skip(p - pos + 1) =~= t@.subrange(p + 1, e as int));
                        assert(trim_start(l)[0] == t@[a as int]);
                        assert(field_of(l) == Some((key@, value@)));
                    }
                } else {
                    proof {
                        assert(trim_start(l)[0] == t@[a as int]);
                        assert(field_of(l) is None);
                    }
                }
            } else {
                proof {
                    if a < b {
                        assert(trim_start(l)[0] == t@[a as int]);
                    }
                    assert(field_of(l) is None);
                }
            }
            proof {
                let after = fields@.map_values(|f: (String, String)| (f.0@, f.1@));
                assert(after =~= before + opt_seq(field_of(l)));
            }
            if e >= n {
                proof {
                    assert(first_index(s, '\n') == s.len());
                    assert(s =~= l);
                    let after = fields@.map_values(|f: (String, String)| (f.0@, f.1@));
                    assert(after =~= before + spec_parse(s));
                }
                return Node { fields };
            }
            proof {
                assert(first_index(s, '\n') == e - pos);
                assert(s.skip(e - pos + 1) =~= t@.skip(e + 1));
                let after = fields@.map_values(|f: (String, String)| (f.0@, f.1@));
                assert(spec_parse(s) == opt_seq(field_of(l)) + spec_parse(t@.skip(e + 1)));
                assert(after + spec_parse(t@.skip(e + 1)) =~= before + spec_parse(s));
            }
            pos = e + 1;
        }
    }

    /// Set a scalar field: replace the first field keyed `k`, else append.
    pub fn set_field(&mut self, k: &str, v: &str)
        ensures
            final(self)@ == spec_set(old(self)@, k@, v@),
    {
        let mut i: usize = 0;
        while i < self.fields.len()
            invariant
                i <= self.fields.len(),
                self@ == old(self)@,
                forall|j: int| 0 <= j < i ==> self@[j].0 != k@,
            decreases self.fields.len() - i,
        {
            if str_eq(self.fields[i].0.as_str(), k) {
                proof {
                    lemma_key_pos_at(self@, k@, i as int);
                }
                let key = to_owned(k);
                let value = to_owned(v);
                self.fields.set(i, (key, value));
                assert(self@ =~= spec_set(old(self)@, k@, v@));
                return ;
            }
            i += 1;
        }
        proof {
            lemma_key_pos_at(self@, k@, i as int);
        }
        self.fields.push((to_owned(k), to_owned(v)));
        assert(self@ =~= spec_set(old(self)@, k@, v@));
    }

    /// Append a multi-value field, skipping an exact duplicate.
    pub fn push_field(&mut self, k: &str, v: &str)
        ensures
            final(self)@ == spec_push(old(self)@, k@, v@),
    {
        let mut i: usize = 0;
        while i < self.fields.len()
            invariant
                i <= self.fields.len(),
                self@ == old(self)@,
                forall|j: int| 0 <= j < i ==> self@[j] != (k@, v@),
            decreases self.fields.len() - i,
        {
            if str_eq(self.fields[i].0.as_str(), k) && str_eq(self.fields[i].1.as_str(), v) {
                assert(self@[i as int] == (k@, v@));
                return ;
            }
            i += 1;
        }
        self.fields.push((to_owned(k), to_owned(v)));
        assert(self@ =~= spec_push(old(self)@, k@, v@));
    }

    /// Remove every field keyed `k`; true when one was removed.
    pub fn unset_field(&mut self, k: &str) -> (changed: bool)
        ensures
            final(self)@ == spec_unset(old(self)@, k@),
            changed == (spec_unset(old(self)@, k@).len() != old(self)@.len()),
    {
        let mut out: Vec<(String, String)> = Vec::new();
        let mut i: usize = 0;
        while i < self.fields.len()
            invariant
                i <= self.fields.len(),
                self@ == old(self)@,
                out@.map_values(|f: (String, String)| (f.0@, f.1@)) == spec_unset(
                    self@.take(i as int),
                    k@,
                ),
            decreases self.fields.len() - i,
        {
            proof {
                lemma_unset_prefix(self@, k@, i as int);
            }
            if !str_eq(self.fields[i].0.as_str(), k) {
                let key = self.fields[i].0.clone();
                let value = self.fields[i].1.clone();
                out.push((key, value));
                assert(out@.map_values(|f: (String, String)| (f.0@, f.1@)) =~= spec_unset(
                    self@.take(i as int),
                    k@,
                ).push(self@[i as int]));
            }
            i += 1;
        }
        assert(self@.take(i as int) =~= self@);
        let before = self.fields.len();
        self.fields = out;
        assert(self@ =~= spec_unset(old(self)@, k@));
        self.fields.len() != before
    }

    /// Remove one specific `(k, v)` field; true when one was removed.
    pub fn remove_value(&mut self, k: &str, v: &str) -> (changed: bool)
        ensures
            final(self)@ == spec_remove(old(self)@, k@, v@),
            changed == (spec_remove(old(self)@, k@, v@).len() != old(self)@.len()),
    {
        let mut out: Vec<(String, String)> = Vec::new();
        let mut i: usize = 0;
        while i < self.fields.len()
            invariant
                i <= self.fields.len(),
                self@ == old(self)@,
                out@.map_values(|f: (String, String)| (f.0@, f.1@)) == spec_remove(
                    self@.take(i as int),
                    k@,
                    v@,
                ),
            decreases self.fields.len() - i,
        {
            proof {
                lemma_remove_prefix(self@, k@, v@, i as int);
            }
            if !(str_eq(self.fields[i].0.as_str(), k) && str_eq(self.fields[i].1.as_str(), v)) {
                let key = self.fields[i].0.clone();
                let value = self.fields[i].1.clone();
                out.push((key, value));
                assert(out@.map_values(|f: (String, String)| (f.0@, f.1@)) =~= spec_remove(
                    self@.take(i as int),
                    k@,
                    v@,
                ).push(self@[i as int]));
            }
            i += 1;
        }
        assert(self@.take(i as int) =~= self@);
        let before = self.fields.len();
        self.fields = out;
        assert(self@ =~= spec_remove(old(self)@, k@, v@));
        self.fields.len() != before
    }
}

} // verus!
