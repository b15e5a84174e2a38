use vstd::prelude::*;

use crate::order::{
    is_key_order, key_before, key_order, lemma_key_order_unique, lemma_lex_asymmetric, lemma_lex_irreflexive, lex_lt,
    lists_position,
};
use crate::text::{chars_of, lowercase, to_lowercase};
use vstd::string::StrSliceExecFns;

verus! {

/// One item of a directory listing.
pub struct Entry {
    pub name: String,
    pub is_dir: bool,
}

impl Clone for Entry {
    fn clone(&self) -> (r: Self)
        ensures
            r == *self,
    {
        Entry { name: self.name.clone(), is_dir: self.is_dir }
    }
}

/// A name is hidden when it starts with a dot.
pub open spec fn is_hidden_name(name: Seq<char>) -> bool {
    name.len() > 0 && name[0] == '.'
}

/// Whether an entry passes the hidden-file setting.
pub open spec fn is_shown(e: Entry, show_hidden: bool) -> bool {
    show_hidden || !is_hidden_name(e.name@)
}

/// The test that keeps the directories of a listing.
pub open spec fn keeps_dir(show_hidden: bool) -> spec_fn(Entry) -> bool {
    |e: Entry| e.is_dir && is_shown(e, show_hidden)
}

/// The test that keeps the files of a listing.
pub open spec fn keeps_file(show_hidden: bool, show_files: bool) -> spec_fn(Entry) -> bool {
    |e: Entry| !e.is_dir && show_files && is_shown(e, show_hidden)
}

/// The sort keys of a group of entries: their names in lowercase.
pub open spec fn name_keys(group: Seq<Entry>) -> Seq<Seq<char>> {
    group.map_values(|e: Entry| lowercase(e.name@))
}

/// `out` is `group` sorted stably by lowercase name.
pub open spec fn sorted_by_name(group: Seq<Entry>, out: Seq<Entry>) -> bool {
    exists|order: Seq<usize>|
        #![trigger is_key_order(name_keys(group), order)]
        is_key_order(name_keys(group), order) && out == order.map_values(
            |i: usize| group[i as int],
        )
}

/// `out` is the listing `raw` as shown: the shown directories, sorted by
/// lowercase name, followed by the shown files (only when `show_files`),
/// sorted the same way. Entries with equal lowercase names keep their order.
pub open spec fn is_arranged(raw: Seq<Entry>, show_hidden: bool, show_files: bool, out: Seq<Entry>) -> bool {
    let dirs = raw.filter(keeps_dir(show_hidden));
    let files = raw.filter(keeps_file(show_hidden, show_files));
    &&& out.len() == dirs.len() + files.len()
    &&& sorted_by_name(dirs, out.take(dirs.len() as int))
    &&& sorted_by_name(files, out.skip(dirs.len() as int))
}

fn starts_with_dot(name: &String) -> (r: bool)
    ensures
        r == is_hidden_name(name@),
        r == (name@.len() > 0 && name@[0] == '.'),
{
    let s = name.as_str();
    s.unicode_len() > 0 && s.get_char(0) == '.'
}

/// `group` sorted stably by lowercase name.
fn sort_by_name(group: &Vec<Entry>) -> (out: Vec<Entry>)
    ensures
        sorted_by_name(group@, out@),
{
    let mut keys: Vec<Vec<char>> = Vec::new();
    let mut i: usize = 0;
    while i < group.len()
        invariant
            i <= group.len(),
            keys.len() == i,
            forall|j: int| 0 <= j < i ==> (#[trigger] keys@[j])@ == lowercase(group@[j].name@),
        decreases group.len() - i,
    {
        let lower = to_lowercase(group[i].name.as_str());
        keys.push(chars_of(lower.as_str()));
        i = i + 1;
    }
    assert forall|j: int| 0 <= j < keys.len() implies #[trigger] keys.deep_view()[j] == name_keys(group@)[j] by {
        assert(keys@[j].deep_view() =~= keys@[j]@);
    }
    assert(keys.deep_view() =~= name_keys(group@));
    let order = key_order(&keys);
    let mut out: Vec<Entry> = Vec::new();
    let mut p: usize = 0;
    while p < order.len()
        invariant
            is_key_order(name_keys(group@), order@),
            p <= order.len(),
            out@ =~= order@.take(p as int).map_values(|i: usize| group@[i as int]),
        decreases order.len() - p,
    {
        assert(order@[p as int] < group@.len());
        out.push(group[order[p]].clone());
        assert(order@.take(p + 1) =~= order@.take(p as int).push(order@[p as int]));
        p = p + 1;
    }
    assert(order@.take(order@.len() as int) =~= order@);
    out
}

/// Arranges a raw directory listing for display: drops hidden entries unless
/// `show_hidden`, drops files unless `show_files`, and lists directories before
/// files, each group sorted by lowercase name.
pub fn arrange_entries(raw: Vec<Entry>, show_hidden: bool, show_files: bool) -> (out: Vec<Entry>)
    ensures
        is_arranged(raw@, show_hidden, show_files, out@),
{
    let ghost kd = keeps_dir(show_hidden);
    let ghost kf = keeps_file(show_hidden, show_files);
    let mut dirs: Vec<Entry> = Vec::new();
    let mut files: Vec<Entry> = Vec::new();
    let mut i: usize = 0;
    assert(raw@.take(0) =~= Seq::<Entry>::empty());
    proof {
        reveal(Seq::filter);
    }
    while i < raw.len()
        invariant
            i <= raw.len(),
            kd == keeps_dir(show_hidden),
            kf == keeps_file(show_hidden, show_files),
            dirs@ == raw@.take(i as int).filter(kd),
            files@ == raw@.take(i as int).filter(kf),
        decreases raw.len() - i,
    {
        let e = &raw[i];
        let ghost prefix = raw@.take(i as int);
        assert(raw@.take(i + 1).drop_last() =~= prefix);
        assert(raw@.take(i + 1).last() == raw@[i as int]);
        proof {
            reveal(Seq::filter);
        }
        if show_hidden || !starts_with_dot(&e.name) {
            if e.is_dir {
                dirs.push(e.clone());
            } else if show_files {
                files.push(e.clone());
            }
        }
        i = i + 1;
    }
    assert(raw@.take(raw.len() as int) =~= raw@);
    let mut out = sort_by_name(&dirs);
    let sorted_files = sort_by_name(&files);
    let ghost d = out@;
    let mut j: usize = 0;
    while j < sorted_files.len()
        invariant
            j <= sorted_files.len(),
            out@ =~= d + sorted_files@.take(j as int),
        decreases sorted_files.len() - j,
    {
        out.push(sorted_files[j].clone());
        assert(sorted_files@.take(j + 1) =~= sorted_files@.take(j as int).push(sorted_files@[j as int]));
        j = j + 1;
    }
    proof {
        lemma_sorted_group(dirs@, d);
        lemma_sorted_group(files@, sorted_files@);
        assert(out@.take(d.len() as int) =~= d);
        assert(out@.skip(d.len() as int) =~= sorted_files@);
    }
    out
}

/// A sorted group holds entries of the group, in non-decreasing order of
/// lowercase name.
pub proof fn lemma_sorted_group(group: Seq<Entry>, out: Seq<Entry>)
    requires
        sorted_by_name(group, out),
    ensures
        out.len() == group.len(),
        forall|k: int| 0 <= k < out.len() ==> group.contains(#[trigger] out[k]),
        forall|i: int| 0 <= i < group.len() ==> out.contains(#[trigger] group[i]),
        forall|k: int, l: int|
            0 <= k < l < out.len() ==> !lex_lt(lowercase((#[trigger] out[l]).name@), lowercase((#[trigger] out[k]).name@)),
{
    let order = choose|order: Seq<usize>|
        #![trigger is_key_order(name_keys(group), order)]
        is_key_order(name_keys(group), order) && out == order.map_values(|i: usize| group[i as int]);
    assert forall|k: int| 0 <= k < out.len() implies group.contains(#[trigger] out[k]) by {
        assert(order[k] < group.len());
        assert(out[k] == group[order[k] as int]);
    }
    assert forall|i: int| 0 <= i < group.len() implies out.contains(#[trigger] group[i]) by {
        assert(lists_position(order, i));
        let p = choose|p: int| 0 <= p < order.len() && order[p] == i;
        assert(out[p] == group[i]);
    }
    assert forall|k: int, l: int| 0 <= k < l < out.len() implies !lex_lt(lowercase((#[trigger] out[l]).name@), lowercase((#[trigger] out[k]).name@)) by {
        assert(key_before(name_keys(group), order[k] as int, order[l] as int));
        let a = lowercase(out[k].name@);
        let b = lowercase(out[l].name@);
        assert(name_keys(group)[order[k] as int] == a);
        assert(name_keys(group)[order[l] as int] == b);
        lemma_lex_asymmetric(a, b);
        lemma_lex_irreflexive(a);
    }
}

/// How many directories of `raw` are shown.
pub open spec fn dir_count(raw: Seq<Entry>, show_hidden: bool) -> int {
    raw.filter(keeps_dir(show_hidden)).len() as int
}

/// The arranged listing shows directories first and files after them, each
/// group in case-insensitive name order; hidden entries only with
/// `show_hidden`, files only with `show_files`; and every shown entry comes
/// from the raw listing.
pub proof fn lemma_arranged_layout(raw: Seq<Entry>, show_hidden: bool, show_files: bool, out: Seq<Entry>)
    requires
        is_arranged(raw, show_hidden, show_files, out),
    ensures
        forall|k: int| 0 <= k < dir_count(raw, show_hidden) ==> (#[trigger] out[k]).is_dir,
        forall|k: int| dir_count(raw, show_hidden) <= k < out.len() ==> !(#[trigger] out[k]).is_dir,
        out.len() > dir_count(raw, show_hidden) ==> show_files,
        forall|k: int| 0 <= k < out.len() ==> is_shown(#[trigger] out[k], show_hidden) && raw.contains(out[k]),
        forall|k: int, l: int|
            (0 <= k < l < dir_count(raw, show_hidden) || dir_count(raw, show_hidden) <= k < l < out.len())
                ==> !lex_lt(lowercase((#[trigger] out[l]).name@), lowercase((#[trigger] out[k]).name@)),
{
    let dirs = raw.filter(keeps_dir(show_hidden));
    let files = raw.filter(keeps_file(show_hidden, show_files));
    let d = dirs.len() as int;
    let front = out.take(d);
    let back = out.skip(d);
    lemma_sorted_group(dirs, front);
    lemma_sorted_group(files, back);
    broadcast use vstd::seq_lib::group_filter_ensures;
    assert forall|k: int| 0 <= k < out.len() implies is_shown(#[trigger] out[k], show_hidden) && raw.contains(out[k])
        && (k < d ==> out[k].is_dir) && (k >= d ==> !out[k].is_dir && show_files) by {
        if k < d {
            assert(out[k] == front[k]);
            assert(dirs.contains(front[k]));
            let j = choose|j: int| 0 <= j < dirs.len() && dirs[j] == front[k];
            assert(keeps_dir(show_hidden)(dirs[j]));
            lemma_filter_member(raw, keeps_dir(show_hidden), j);
        } else {
            assert(out[k] == back[k - d]);
            assert(files.contains(back[k - d]));
            let j = choose|j: int| 0 <= j < files.len() && files[j] == back[k - d];
            assert(keeps_file(show_hidden, show_files)(files[j]));
            lemma_filter_member(raw, keeps_file(show_hidden, show_files), j);
        }
    }
    assert forall|k: int| 0 <= k < d implies (#[trigger] out[k]).is_dir by {
        assert(is_shown(out[k], show_hidden));
    }
    assert forall|k: int| dir_count(raw, show_hidden) <= k < out.len() implies !(#[trigger] out[k]).is_dir by {
        assert(is_shown(out[k], show_hidden));
    }
    if out.len() > d {
        assert(is_shown(out[d], show_hidden));
    }
    assert forall|k: int, l: int| (0 <= k < l < d || d <= k < l < out.len()) implies !lex_lt(
        lowercase((#[trigger] out[l]).name@),
        lowercase((#[trigger] out[k]).name@),
    ) by {
        if l < d {
            assert(out[k] == front[k] && out[l] == front[l]);
        } else {
            assert(out[k] == back[k - d] && out[l] == back[l - d]);
        }
    }
}

/// Two sortings of the same group agree.
pub proof fn lemma_sorted_group_unique(group: Seq<Entry>, a: Seq<Entry>, b: Seq<Entry>)
    requires
        sorted_by_name(group, a),
        sorted_by_name(group, b),
    ensures
        a == b,
{
    let oa = choose|order: Seq<usize>|
        #![trigger is_key_order(name_keys(group), order)]
        is_key_order(name_keys(group), order) && a == order.map_values(|i: usize| group[i as int]);
    let ob = choose|order: Seq<usize>|
        #![trigger is_key_order(name_keys(group), order)]
        is_key_order(name_keys(group), order) && b == order.map_values(|i: usize| group[i as int]);
    lemma_key_order_unique(name_keys(group), oa, ob);
}

/// The test that keeps directories.
pub open spec fn is_directory() -> spec_fn(Entry) -> bool {
    |e: Entry| e.is_dir
}

proof fn lemma_filter_keeps_all(s: Seq<Entry>, keep: spec_fn(Entry) -> bool)
    requires
        forall|k: int| 0 <= k < s.len() ==> keep(#[trigger] s[k]),
    ensures
        s.filter(keep) == s,
    decreases s.len(),
{
    reveal(Seq::filter);
    if s.len() > 0 {
        lemma_filter_keeps_all(s.drop_last(), keep);
        assert(s.drop_last().push(s.last()) =~= s);
    }
}

proof fn lemma_filter_keeps_none(s: Seq<Entry>, keep: spec_fn(Entry) -> bool)
    requires
        forall|k: int| 0 <= k < s.len() ==> !keep(#[trigger] s[k]),
    ensures
        s.filter(keep) == Seq::<Entry>::empty(),
    decreases s.len(),
{
    reveal(Seq::filter);
    if s.len() > 0 {
        lemma_filter_keeps_none(s.drop_last(), keep);
    } else {
        assert(s =~= Seq::<Entry>::empty());
    }
}

/// Turning files on changes nothing of the directories: the listing without
/// files is the listing with files cut down to its directories.
pub proof fn lemma_files_switch(raw: Seq<Entry>, show_hidden: bool, without: Seq<Entry>, with: Seq<Entry>)
    requires
        is_arranged(raw, show_hidden, false, without),
        is_arranged(raw, show_hidden, true, with),
    ensures
        without == with.take(dir_count(raw, show_hidden)),
        without == with.filter(is_directory()),
{
    let dirs = raw.filter(keeps_dir(show_hidden));
    let d = dirs.len() as int;
    lemma_filter_keeps_none(raw, keeps_file(show_hidden, false));
    assert(without.len() == d);
    assert(without.take(d) =~= without);
    lemma_sorted_group_unique(dirs, without.take(d), with.take(d));
    lemma_arranged_layout(raw, show_hidden, true, with);
    assert(with =~= with.take(d) + with.skip(d));
    Seq::filter_distributes_over_add(with.take(d), with.skip(d), is_directory());
    lemma_filter_keeps_all(with.take(d), is_directory());
    assert forall|k: int| 0 <= k < with.skip(d).len() implies !is_directory()(#[trigger] with.skip(d)[k]) by {
        assert(with.skip(d)[k] == with[k + d]);
    }
    lemma_filter_keeps_none(with.skip(d), is_directory());
    assert(with.take(d) + Seq::<Entry>::empty() =~= with.take(d));
}

/// An entry of `raw` that the settings show is in the arranged listing.
proof fn lemma_arranged_contains(raw: Seq<Entry>, show_hidden: bool, show_files: bool, out: Seq<Entry>, i: int)
    requires
        is_arranged(raw, show_hidden, show_files, out),
        0 <= i < raw.len(),
        is_shown(raw[i], show_hidden),
        raw[i].is_dir || show_files,
    ensures
        out.contains(raw[i]),
{
    broadcast use vstd::seq_lib::group_filter_ensures;
    let dirs = raw.filter(keeps_dir(show_hidden));
    let files = raw.filter(keeps_file(show_hidden, show_files));
    let d = dirs.len() as int;
    let x = raw[i];
    if x.is_dir {
        assert(keeps_dir(show_hidden)(raw[i]));
        assert(dirs.contains(x));
        let j = choose|j: int| 0 <= j < dirs.len() && dirs[j] == x;
        lemma_sorted_group(dirs, out.take(d));
        assert(out.take(d).contains(dirs[j]));
        let k = choose|k: int| 0 <= k < out.take(d).len() && out.take(d)[k] == x;
        assert(out[k] == x);
    } else {
        assert(keeps_file(show_hidden, show_files)(raw[i]));
        assert(files.contains(x));
        let j = choose|j: int| 0 <= j < files.len() && files[j] == x;
        lemma_sorted_group(files, out.skip(d));
        assert(out.skip(d).contains(files[j]));
        let k = choose|k: int| 0 <= k < out.skip(d).len() && out.skip(d)[k] == x;
        assert(out[k + d] == x);
    }
}

/// Turning hidden entries on only adds entries: everything listed without
/// them is listed with them, and every entry listed only with them has a
/// name that starts with a dot.
pub proof fn lemma_hidden_switch(raw: Seq<Entry>, show_files: bool, shown: Seq<Entry>, all: Seq<Entry>)
    requires
        is_arranged(raw, false, show_files, shown),
        is_arranged(raw, true, show_files, all),
    ensures
        forall|k: int| 0 <= k < shown.len() ==> all.contains(#[trigger] shown[k]),
        forall|k: int| 0 <= k < all.len() ==> shown.contains(#[trigger] all[k]) || is_hidden_name(all[k].name@),
{
    lemma_arranged_layout(raw, false, show_files, shown);
    lemma_arranged_layout(raw, true, show_files, all);
    assert forall|k: int| 0 <= k < shown.len() implies all.contains(#[trigger] shown[k]) by {
        let x = shown[k];
        assert(raw.contains(x));
        let i = choose|i: int| 0 <= i < raw.len() && raw[i] == x;
        if !x.is_dir {
            assert(k >= dir_count(raw, false));
        }
        lemma_arranged_contains(raw, true, show_files, all, i);
    }
    assert forall|k: int| 0 <= k < all.len() implies shown.contains(#[trigger] all[k]) || is_hidden_name(all[k].name@) by {
        let x = all[k];
        if !is_hidden_name(x.name@) {
            assert(raw.contains(x));
            let i = choose|i: int| 0 <= i < raw.len() && raw[i] == x;
            if !x.is_dir {
                assert(k >= dir_count(raw, true));
            }
            lemma_arranged_contains(raw, false, show_files, shown, i);
        }
    }
}

/// With hidden entries off, exactly the names that start with a dot are held
/// back: no listed entry's name starts with `.`, and every directory of the raw
/// listing whose name does not start with `.` is listed (and so is every such
/// file, when files are shown).
pub proof fn lemma_only_dot_names_hidden(raw: Seq<Entry>, show_files: bool, out: Seq<Entry>)
    requires
        is_arranged(raw, false, show_files, out),
    ensures
        forall|k: int| 0 <= k < out.len() ==> !((#[trigger] out[k]).name@.len() > 0 && out[k].name@[0] == '.'),
        forall|i: int|
            0 <= i < raw.len() && !((#[trigger] raw[i]).name@.len() > 0 && raw[i].name@[0] == '.') && (raw[i].is_dir
                || show_files) ==> out.contains(raw[i]),
{
    lemma_arranged_layout(raw, false, show_files, out);
    assert forall|k: int| 0 <= k < out.len() implies !((#[trigger] out[k]).name@.len() > 0 && out[k].name@[0] == '.') by {
        assert(is_shown(out[k], false));
    }
    assert forall|i: int|
        0 <= i < raw.len() && !((#[trigger] raw[i]).name@.len() > 0 && raw[i].name@[0] == '.') && (raw[i].is_dir
            || show_files) implies out.contains(raw[i]) by {
        lemma_arranged_contains(raw, false, show_files, out, i);
    }
}

/// Every item of a filtered sequence occurs in the sequence.
proof fn lemma_filter_member(s: Seq<Entry>, keep: spec_fn(Entry) -> bool, j: int)
    requires
        0 <= j < s.filter(keep).len(),
    ensures
        s.contains(s.filter(keep)[j]),
    decreases s.len(),
{
    reveal(Seq::filter);
    if s.len() > 0 {
        let sub = s.drop_last().filter(keep);
        if j < sub.len() {
            lemma_filter_member(s.drop_last(), keep, j);
            let i = choose|i: int| 0 <= i < s.drop_last().len() && s.drop_last()[i] == sub[j];
            assert(s[i] == sub[j]);
        } else {
            assert(s[s.len() - 1] == s.last());
        }
    }
}

} // verus!
