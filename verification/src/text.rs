use vstd::prelude::*;
use vstd::string::*;

verus! {

/// The pieces of `s` between occurrences of `sep`, in order. As with `str::split`,
/// an input that holds `k` separators has `k + 1` pieces, some possibly empty.
pub open spec fn split_on<T>(s: Seq<T>, sep: T) -> Seq<Seq<T>>
    decreases s.len(),
{
    if s.len() == 0 {
        seq![Seq::<T>::empty()]
    } else {
        let prev = split_on(s.drop_last(), sep);
        if s.last() == sep {
            prev.push(Seq::<T>::empty())
        } else {
            prev.update(prev.len() - 1, prev.last().push(s.last()))
        }
    }
}

/// The pieces that are not empty, in their original order.
pub open spec fn nonempty_pieces<T>(pieces: Seq<Seq<T>>) -> Seq<Seq<T>> {
    pieces.filter(|p: Seq<T>| p.len() > 0)
}

/// Splitting always yields at least one piece.
pub proof fn lemma_split_on_len<T>(s: Seq<T>, sep: T)
    ensures
        split_on(s, sep).len() >= 1,
    decreases s.len(),
{
    if s.len() > 0 {
        lemma_split_on_len(s.drop_last(), sep);
    }
}

/// No piece holds the separator.
pub proof fn lemma_split_on_pieces_lack_sep<T>(s: Seq<T>, sep: T)
    ensures
        forall|i: int|
            0 <= i < split_on(s, sep).len() ==> !(#[trigger] split_on(s, sep)[i]).contains(sep),
    decreases s.len(),
{
    lemma_split_on_len(s, sep);
    if s.len() > 0 {
        let prev = split_on(s.drop_last(), sep);
        lemma_split_on_pieces_lack_sep(s.drop_last(), sep);
        lemma_split_on_len(s.drop_last(), sep);
        if s.last() != sep {
            let last = prev.last();
            assert(!last.contains(sep));
            assert forall|k: int| 0 <= k < last.push(s.last()).len() implies last.push(s.last())[k]
                != sep by {
                if k < last.len() {
                    assert(last.push(s.last())[k] == last[k]);
                }
            }
        }
    }
}

/// A sequence without the separator is a single piece.
pub proof fn lemma_split_on_without_sep<T>(s: Seq<T>, sep: T)
    requires
        !s.contains(sep),
    ensures
        split_on(s, sep) == seq![s],
    decreases s.len(),
{
    if s.len() > 0 {
        assert(!s.drop_last().contains(sep)) by {
            assert forall|k: int| 0 <= k < s.drop_last().len() implies s.drop_last()[k] != sep by {
                assert(s.drop_last()[k] == s[k]);
            }
        }
        lemma_split_on_without_sep(s.drop_last(), sep);
        assert(s[s.len() - 1] != sep);
        assert(s.drop_last().push(s.last()) =~= s);
        assert(split_on(s, sep) =~= seq![s]);
    } else {
        assert(s =~= Seq::<T>::empty());
    }
}

/// Splitting `x + b` keeps every complete piece of `x` and continues from its
/// unfinished last piece.
pub proof fn lemma_split_on_append<T>(x: Seq<T>, b: Seq<T>, sep: T)
    ensures
        split_on(x + b, sep) == split_on(x, sep).drop_last() + split_on(
            split_on(x, sep).last() + b,
            sep,
        ),
    decreases b.len(),
{
    let px = split_on(x, sep);
    lemma_split_on_len(x, sep);
    let rest = px.last();
    if b.len() == 0 {
        assert(x + b =~= x);
        assert(rest + b =~= rest);
        lemma_split_on_pieces_lack_sep(x, sep);
        assert(!rest.contains(sep));
        lemma_split_on_without_sep(rest, sep);
        assert(px =~= px.drop_last() + seq![rest]);
    } else {
        let b0 = b.drop_last();
        let c = b.last();
        lemma_split_on_append(x, b0, sep);
        assert((x + b).drop_last() =~= x + b0);
        assert((x + b).last() == c);
        assert((rest + b).drop_last() =~= rest + b0);
        assert((rest + b).last() == c);
        let d = px.drop_last();
        let e = split_on(rest + b0, sep);
        lemma_split_on_len(rest + b0, sep);
        if c == sep {
            assert((d + e).push(Seq::<T>::empty()) =~= d + e.push(Seq::<T>::empty()));
        } else {
            assert((d + e).update((d + e).len() - 1, (d + e).last().push(c)) =~= d + e.update(
                e.len() - 1,
                e.last().push(c),
            ));
        }
    }
}

/// Unicode `White_Space`, the set that `char::is_whitespace` and `str::trim` use.
pub open spec fn is_white_space(c: char) -> bool {
    let u = c as u32;
    ||| 0x9 <= u <= 0xd
    ||| u == 0x20
    ||| u == 0x85
    ||| u == 0xa0
    ||| u == 0x1680
    ||| 0x2000 <= u <= 0x200a
    ||| u == 0x2028
    ||| u == 0x2029
    ||| u == 0x202f
    ||| u == 0x205f
    ||| u == 0x3000
}

/// `s` without its leading white space.
pub open spec fn trim_start(s: Seq<char>) -> Seq<char>
    decreases s.len(),
{
    if s.len() > 0 && is_white_space(s[0]) {
        trim_start(s.drop_first())
    } else {
        s
    }
}

/// `s` without its trailing white space.
pub open spec fn trim_end(s: Seq<char>) -> Seq<char>
    decreases s.len(),
{
    if s.len() > 0 && is_white_space(s.last()) {
        trim_end(s.drop_last())
    } else {
        s
    }
}

/// `s` without leading and trailing white space, as `str::trim` gives it.
pub open spec fn trim(s: Seq<char>) -> Seq<char> {
    trim_end(trim_start(s))
}

/// Trimming the front leaves a suffix of `s` that does not start with white space.
pub proof fn lemma_trim_start(s: Seq<char>)
    ensures
        trim_start(s).len() > 0 ==> !is_white_space(trim_start(s)[0]),
        forall|c: char| trim_start(s).contains(c) ==> s.contains(c),
    decreases s.len(),
{
    if s.len() > 0 && is_white_space(s[0]) {
        lemma_trim_start(s.drop_first());
        assert forall|c: char| trim_start(s).contains(c) implies s.contains(c) by {
            assert(s.drop_first().contains(c));
            let k = choose|k: int| 0 <= k < s.drop_first().len() && s.drop_first()[k] == c;
            assert(s[k + 1] == c);
        }
    }
}

/// Trimming the back leaves a prefix of `s` that does not end with white space.
pub proof fn lemma_trim_end(s: Seq<char>)
    ensures
        trim_end(s).len() > 0 ==> !is_white_space(trim_end(s).last()) && trim_end(s)[0] == s[0],
        forall|c: char| trim_end(s).contains(c) ==> s.contains(c),
    decreases s.len(),
{
    if s.len() > 0 && is_white_space(s.last()) {
        lemma_trim_end(s.drop_last());
        assert forall|c: char| trim_end(s).contains(c) implies s.contains(c) by {
            assert(s.drop_last().contains(c));
            let k = choose|k: int| 0 <= k < s.drop_last().len() && s.drop_last()[k] == c;
            assert(s[k] == c);
        }
    }
}

/// Whether `c` is Unicode white space.
pub fn is_white_space_char(c: char) -> (b: bool)
    ensures
        b == is_white_space(c),
{
    let u = c as u32;
    (0x9 <= u && u <= 0xd) || u == 0x20 || u == 0x85 || u == 0xa0 || u == 0x1680 || (0x2000
        <= u && u <= 0x200a) || u == 0x2028 || u == 0x2029 || u == 0x202f || u == 0x205f || u
        == 0x3000
}


/// The characters of `s`, in order.
pub fn chars_of(s: &str) -> (v: Vec<char>)
    ensures
        v@ == s@,
{
    let mut v: Vec<char> = Vec::new();
    for c in it: s.chars()
        invariant
            it.seq() == s@,
            v@ == it.seq().take(it.index() as int),
    {
        v.push(c);
    }
    v
}


/// The bounds of `chars[start..end]` once white space is trimmed from both ends.
fn trimmed_bounds(chars: &Vec<char>, start: usize, end: usize) -> (r: (usize, usize))
    requires
        start <= end <= chars@.len(),
    ensures
        start <= r.0 <= r.1 <= end,
        chars@.subrange(r.0 as int, r.1 as int) == trim(chars@.subrange(start as int, end as int)),
{
    let mut lo = start;
    while lo < end && is_white_space_char(chars[lo])
        invariant
            start <= lo <= end <= chars@.len(),
            trim_start(chars@.subrange(start as int, end as int)) == trim_start(
                chars@.subrange(lo as int, end as int),
            ),
        decreases end - lo,
    {
        assert(chars@.subrange(lo as int, end as int).drop_first() =~= chars@.subrange(
            lo + 1,
            end as int,
        ));
        lo = lo + 1;
    }
    let mut hi = end;
    while hi > lo && is_white_space_char(chars[hi - 1])
        invariant
            start <= lo <= hi <= end <= chars@.len(),
            trim_end(chars@.subrange(lo as int, end as int)) == trim_end(
                chars@.subrange(lo as int, hi as int),
            ),
        decreases hi - lo,
    {
        assert(chars@.subrange(lo as int, hi as int).drop_last() =~= chars@.subrange(
            lo as int,
            hi - 1,
        ));
        hi = hi - 1;
    }
    (lo, hi)
}

/// The pieces of `value` between commas, each with its surrounding white space
/// removed; empty pieces are kept.
pub fn split_trimmed(value: &str) -> (items: Vec<String>)
    ensures
        items@.map_values(|x: String| x@) == split_on(value@, ',').map_values(|p| trim(p)),
{
    let chars = chars_of(value);
    let n = chars.len();
    let mut items: Vec<String> = Vec::new();
    let mut seg_start: usize = 0;
    let mut i: usize = 0;
    proof {
        assert(chars@.take(0) =~= Seq::<char>::empty());
    }
    while i < n
        invariant
            n == chars@.len(),
            chars@ == value@,
            seg_start <= i <= n,
            split_on(chars@.take(i as int), ',').len() >= 1,
            split_on(chars@.take(i as int), ',').last() == chars@.subrange(seg_start as int, i as int),
            items@.map_values(|x: String| x@) == split_on(chars@.take(i as int), ',').drop_last().map_values(
                |p| trim(p),
            ),
        decreases n - i,
    {
        let ghost prev = split_on(chars@.take(i as int), ',');
        assert(chars@.take(i + 1).drop_last() =~= chars@.take(i as int));
        if chars[i] == ',' {
            let (lo, hi) = trimmed_bounds(&chars, seg_start, i);
            let piece = value.substring_char(lo, hi).to_owned();
            let ghost before = items@;
            items.push(piece);
            proof {
                let next = split_on(chars@.take(i + 1), ',');
                assert(next =~= prev.push(Seq::<char>::empty()));
                assert(next.drop_last() =~= prev);
                assert(prev =~= prev.drop_last().push(prev.last()));
                assert(items@.map_values(|x: String| x@) =~= before.map_values(|x: String| x@).push(
                    piece@,
                ));
                assert(prev.map_values(|p| trim(p)) =~= prev.drop_last().map_values(|p| trim(p)).push(
                    trim(prev.last()),
                ));
                assert(chars@.subrange(i + 1, i + 1) =~= Seq::<char>::empty());
            }
            seg_start = i + 1;
        } else {
            proof {
                let next = split_on(chars@.take(i + 1), ',');
                assert(next =~= prev.update(prev.len() - 1, prev.last().push(chars@[i as int])));
                assert(next.drop_last() =~= prev.drop_last());
                assert(chars@.subrange(seg_start as int, i + 1) =~= chars@.subrange(
                    seg_start as int,
                    i as int,
                ).push(chars@[i as int]));
            }
        }
        i = i + 1;
    }
    let (lo, hi) = trimmed_bounds(&chars, seg_start, n);
    let piece = value.substring_char(lo, hi).to_owned();
    let ghost before = items@;
    items.push(piece);
    proof {
        let all = split_on(chars@.take(n as int), ',');
        assert(chars@.take(n as int) =~= chars@);
        assert(all =~= all.drop_last().push(all.last()));
        assert(items@.map_values(|x: String| x@) =~= before.map_values(|x: String| x@).push(piece@));
        assert(all.map_values(|p| trim(p)) =~= all.drop_last().map_values(|p| trim(p)).push(
            trim(all.last()),
        ));
    }
    items
}


/// The entries of a comma-separated list: each piece between commas with its
/// surrounding white space removed, keeping only the pieces left non-empty.
pub open spec fn csv_items(s: Seq<char>) -> Seq<Seq<char>> {
    nonempty_pieces(split_on(s, ',').map_values(|p| trim(p)))
}

/// Splits a comma-separated list into its trimmed, non-empty entries.
pub fn split_csv(value: &str) -> (items: Vec<String>)
    ensures
        items@.map_values(|x: String| x@) == csv_items(value@),
{
    let pieces = split_trimmed(value);
    let ghost views = pieces@.map_values(|x: String| x@);
    let mut items: Vec<String> = Vec::new();
    let mut j: usize = 0;
    proof {
        reveal(Seq::filter);
        assert(views.take(0) =~= Seq::<Seq<char>>::empty());
        assert(items@.map_values(|x: String| x@) =~= Seq::<Seq<char>>::empty());
    }
    while j < pieces.len()
        invariant
            j <= pieces@.len(),
            views == pieces@.map_values(|x: String| x@),
            items@.map_values(|x: String| x@) == nonempty_pieces(views.take(j as int)),
        decreases pieces@.len() - j,
    {
        let ghost before = items@;
        proof {
            reveal(Seq::filter);
            assert(views.take(j + 1).drop_last() =~= views.take(j as int));
            assert(views.take(j + 1).last() == pieces@[j as int]@);
        }
        if !pieces[j].as_str().is_empty() {
            let piece = pieces[j].clone();
            items.push(piece);
            proof {
                assert(items@.map_values(|x: String| x@) =~= before.map_values(|x: String| x@).push(
                    piece@,
                ));
            }
        }
        j = j + 1;
    }
    proof {
        assert(views.take(pieces@.len() as int) =~= views);
    }
    items
}


/// Every entry of a comma-separated list is non-empty, holds no comma, and neither
/// starts nor ends with white space.
pub proof fn lemma_csv_items_are_clean(s: Seq<char>)
    ensures
        forall|i: int|
            0 <= i < csv_items(s).len() ==> {
                let item = #[trigger] csv_items(s)[i];
                &&& item.len() > 0
                &&& !item.contains(',')
                &&& !is_white_space(item[0])
                &&& !is_white_space(item.last())
            },
{
    let pieces = split_on(s, ',');
    let trimmed = pieces.map_values(|p| trim(p));
    let pred = |p: Seq<char>| p.len() > 0;
    lemma_split_on_pieces_lack_sep(s, ',');
    assert forall|i: int| 0 <= i < csv_items(s).len() implies {
        let item = #[trigger] csv_items(s)[i];
        &&& item.len() > 0
        &&& !item.contains(',')
        &&& !is_white_space(item[0])
        &&& !is_white_space(item.last())
    } by {
        let item = csv_items(s)[i];
        trimmed.lemma_filter_pred(pred, i);
        assert(trimmed.filter(pred).contains(item));
        trimmed.lemma_filter_contains_rev(pred, item);
        let j = choose|j: int| 0 <= j < trimmed.len() && trimmed[j] == item;
        let p = pieces[j];
        assert(item == trim(p));
        lemma_trim_start(p);
        lemma_trim_end(trim_start(p));
        assert(!p.contains(','));
    }
}


/// Splitting `a`, a separator, then `b` gives the pieces of `a` followed by those of `b`.
pub proof fn lemma_split_on_concat<T>(a: Seq<T>, b: Seq<T>, sep: T)
    ensures
        split_on(a + seq![sep] + b, sep) == split_on(a, sep) + split_on(b, sep),
{
    let x = a + seq![sep];
    assert(x.drop_last() =~= a);
    assert(x.last() == sep);
    assert(split_on(x, sep) == split_on(a, sep).push(Seq::<T>::empty()));
    lemma_split_on_append(x, b, sep);
    assert(split_on(x, sep).drop_last() =~= split_on(a, sep));
    assert(Seq::<T>::empty() + b =~= b);
}

/// The list `a,b` has the entries of `a` followed by the entries of `b`.
pub proof fn lemma_csv_items_concat(a: Seq<char>, b: Seq<char>)
    ensures
        csv_items(a + seq![','] + b) == csv_items(a) + csv_items(b),
{
    lemma_split_on_concat(a, b, ',');
    let pa = split_on(a, ',').map_values(|p| trim(p));
    let pb = split_on(b, ',').map_values(|p| trim(p));
    assert(split_on(a + seq![','] + b, ',').map_values(|p| trim(p)) =~= pa + pb);
    Seq::filter_distributes_over_add(pa, pb, |p: Seq<char>| p.len() > 0);
}

/// The entries joined back with `sep` between them.
pub open spec fn join_with(items: Seq<Seq<char>>, sep: char) -> Seq<char>
    decreases items.len(),
{
    if items.len() == 0 {
        Seq::<char>::empty()
    } else if items.len() == 1 {
        items[0]
    } else {
        join_with(items.drop_last(), sep) + seq![sep] + items.last()
    }
}

/// What an entry of a comma-separated list looks like: non-empty, without a comma,
/// and without white space at either end.
pub open spec fn is_clean_item(x: Seq<char>) -> bool {
    &&& x.len() > 0
    &&& !x.contains(',')
    &&& !is_white_space(x[0])
    &&& !is_white_space(x.last())
}

/// A clean entry on its own is a list of just that entry.
pub proof fn lemma_csv_items_of_clean_item(x: Seq<char>)
    requires
        is_clean_item(x),
    ensures
        csv_items(x) == seq![x],
{
    reveal(Seq::filter);
    lemma_split_on_without_sep(x, ',');
    assert(trim_start(x) == x);
    assert(trim_end(x) == x);
    let pieces = split_on(x, ',').map_values(|p| trim(p));
    assert(pieces =~= seq![x]);
    assert(pieces.drop_last() =~= Seq::<Seq<char>>::empty());
    assert(Seq::<Seq<char>>::empty().push(x) =~= seq![x]);
}

/// Clean entries joined with commas read back as the same entries.
pub proof fn lemma_csv_items_of_join(items: Seq<Seq<char>>)
    requires
        forall|i: int| 0 <= i < items.len() ==> is_clean_item(#[trigger] items[i]),
    ensures
        csv_items(join_with(items, ',')) == items,
    decreases items.len(),
{
    if items.len() == 0 {
        reveal(Seq::filter);
        let pieces = split_on(Seq::<char>::empty(), ',').map_values(|p| trim(p));
        assert(trim(Seq::<char>::empty()) == Seq::<char>::empty());
        assert(pieces.len() == 1);
        assert(pieces[0] == trim(Seq::<char>::empty()));
        assert(pieces.last().len() == 0);
        assert(pieces.drop_last() =~= Seq::<Seq<char>>::empty());
        assert(pieces.drop_last().filter(|p: Seq<char>| p.len() > 0) =~= Seq::<Seq<char>>::empty());
        assert(csv_items(Seq::<char>::empty()) =~= Seq::<Seq<char>>::empty());
        assert(items =~= Seq::<Seq<char>>::empty());
    } else if items.len() == 1 {
        assert(is_clean_item(items[0]));
        lemma_csv_items_of_clean_item(items[0]);
        assert(items =~= seq![items[0]]);
    } else {
        let init = items.drop_last();
        assert forall|i: int| 0 <= i < init.len() implies is_clean_item(#[trigger] init[i]) by {
            assert(init[i] == items[i]);
        }
        lemma_csv_items_of_join(init);
        lemma_csv_items_concat(join_with(init, ','), items.last());
        assert(is_clean_item(items[items.len() - 1]));
        lemma_csv_items_of_clean_item(items.last());
        assert(init + seq![items.last()] =~= items);
    }
}

/// Splitting a comma-separated list is idempotent: joining its entries with commas
/// and splitting again gives the same entries.
pub proof fn lemma_csv_items_idempotent(s: Seq<char>)
    ensures
        csv_items(join_with(csv_items(s), ',')) == csv_items(s),
{
    lemma_csv_items_are_clean(s);
    let items = csv_items(s);
    assert forall|i: int| 0 <= i < items.len() implies is_clean_item(#[trigger] items[i]) by {
        let item = items[i];
        assert(item.len() > 0);
    }
    lemma_csv_items_of_join(items);
}


/// `trim_start` drops exactly the leading white space: a run of white space up to
/// the first other character.
proof fn lemma_trim_start_cut(s: Seq<char>) -> (a: int)
    ensures
        0 <= a <= s.len(),
        trim_start(s) == s.subrange(a, s.len() as int),
        forall|k: int| 0 <= k < a ==> is_white_space(#[trigger] s[k]),
        a < s.len() ==> !is_white_space(s[a]),
    decreases s.len(),
{
    if s.len() > 0 && is_white_space(s[0]) {
        let a1 = lemma_trim_start_cut(s.drop_first());
        assert(s.drop_first().subrange(a1, s.drop_first().len() as int) =~= s.subrange(
            a1 + 1,
            s.len() as int,
        ));
        assert forall|k: int| 0 <= k < a1 + 1 implies is_white_space(#[trigger] s[k]) by {
            if k > 0 {
                assert(s[k] == s.drop_first()[k - 1]);
            }
        }
        if a1 + 1 < s.len() {
            assert(s[a1 + 1] == s.drop_first()[a1]);
        }
        a1 + 1
    } else {
        assert(s.subrange(0, s.len() as int) =~= s);
        0
    }
}

/// `trim_end` drops exactly the trailing white space.
proof fn lemma_trim_end_cut(s: Seq<char>) -> (b: int)
    ensures
        0 <= b <= s.len(),
        trim_end(s) == s.subrange(0, b),
        forall|k: int| b <= k < s.len() ==> is_white_space(#[trigger] s[k]),
        b > 0 ==> !is_white_space(s[b - 1]),
    decreases s.len(),
{
    if s.len() > 0 && is_white_space(s.last()) {
        let b1 = lemma_trim_end_cut(s.drop_last());
        assert(s.drop_last().subrange(0, b1) =~= s.subrange(0, b1));
        assert forall|k: int| b1 <= k < s.len() implies is_white_space(#[trigger] s[k]) by {
            if k < s.len() - 1 {
                assert(s[k] == s.drop_last()[k]);
            }
        }
        if b1 > 0 {
            assert(s[b1 - 1] == s.drop_last()[b1 - 1]);
        }
        b1
    } else {
        assert(s.subrange(0, s.len() as int) =~= s);
        s.len() as int
    }
}

/// Trimming keeps the run of `s` between its leading and its trailing white space:
/// everything cut off is white space, and what is kept, when not empty, starts and
/// ends with a character that is not.
pub proof fn lemma_trim_keeps_inner_run(s: Seq<char>)
    ensures
        exists|i: int, j: int|
            {
                &&& 0 <= i <= j <= s.len()
                &&& trim(s) == s.subrange(i, j)
                &&& forall|k: int| 0 <= k < i ==> is_white_space(#[trigger] s[k])
                &&& forall|k: int| j <= k < s.len() ==> is_white_space(#[trigger] s[k])
                &&& i < j ==> !is_white_space(s[i]) && !is_white_space(s[j - 1])
            },
{
    let a = lemma_trim_start_cut(s);
    let t = s.subrange(a, s.len() as int);
    let b = lemma_trim_end_cut(t);
    let i = a;
    let j = a + b;
    assert(t.subrange(0, b) =~= s.subrange(i, j));
    assert forall|k: int| j <= k < s.len() implies is_white_space(#[trigger] s[k]) by {
        assert(s[k] == t[k - a]);
    }
    if i < j {
        assert(s[j - 1] == t[b - 1]);
    }
    assert({
        &&& 0 <= i <= j <= s.len()
        &&& trim(s) == s.subrange(i, j)
        &&& forall|k: int| 0 <= k < i ==> is_white_space(#[trigger] s[k])
        &&& forall|k: int| j <= k < s.len() ==> is_white_space(#[trigger] s[k])
        &&& i < j ==> !is_white_space(s[i]) && !is_white_space(s[j - 1])
    });
}

/// A piece without a comma gives one entry, the piece with its surrounding white
/// space removed, whatever its length, or none when nothing but white space is left.
pub proof fn lemma_csv_items_of_piece(p: Seq<char>)
    requires
        !p.contains(','),
    ensures
        csv_items(p) == (if trim(p).len() > 0 {
            seq![trim(p)]
        } else {
            Seq::<Seq<char>>::empty()
        }),
{
    reveal(Seq::filter);
    lemma_split_on_without_sep(p, ',');
    let pieces = split_on(p, ',').map_values(|q| trim(q));
    assert(pieces =~= seq![trim(p)]);
    assert(pieces.drop_last() =~= Seq::<Seq<char>>::empty());
    assert(pieces.drop_last().filter(|q: Seq<char>| q.len() > 0) =~= Seq::<Seq<char>>::empty());
    assert(Seq::<Seq<char>>::empty().push(trim(p)) =~= seq![trim(p)]);
}

} // verus!
