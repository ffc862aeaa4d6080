//! The slice executor: applies a [`GridSliceFilter`] to concrete input lines.
//!
//! Each axis is handled the same way: the axis's range is normalized against
//! the concrete sequence length, the sequence is walked in forward order for
//! a positive step and in reverse order for a negative one, and an element is
//! kept iff its position along the walk passes the membership test.  The line
//! axis is normalized once against the total line count (which is why a
//! genuine negative bound or a negative step forces buffering the whole
//! input); the field and character axes are normalized afresh per line and
//! per field.

use crate::slice_range::{
    default_range_model, is_inside_range, lemma_streaming_range_is_normal, normalize_model,
    normalize_range, range_contains, FilterModel, GridSliceFilter, GridSliceRange, RangeModel,
};
use crate::text::chars_to_string;
use crate::text::str_to_chars;
use vstd::prelude::*;

verus! {

/// The elements of `s` whose absolute position passes the membership test,
/// in order, where `s` starts at absolute position `i`.
pub open spec fn range_filter_from<A>(s: Seq<A>, m: RangeModel, i: int) -> Seq<A>
    decreases s.len(),
{
    if s.len() == 0 {
        Seq::empty()
    } else if range_contains(m, i) {
        seq![s[0]] + range_filter_from(s.drop_first(), m, i + 1)
    } else {
        range_filter_from(s.drop_first(), m, i + 1)
    }
}

/// The elements of `s` whose position passes the membership test, in order.
pub open spec fn range_filter<A>(s: Seq<A>, m: RangeModel) -> Seq<A> {
    range_filter_from(s, m, 0)
}

/// Appending one element extends the filtered sequence by that element
/// exactly when its position is selected.
pub proof fn lemma_range_filter_from_push<A>(s: Seq<A>, m: RangeModel, i: int, x: A)
    ensures
        range_filter_from(s.push(x), m, i) == range_filter_from(s, m, i) + (if range_contains(
            m,
            i + s.len(),
        ) {
            seq![x]
        } else {
            Seq::<A>::empty()
        }),
    decreases s.len(),
{
    reveal_with_fuel(range_filter_from, 2);
    if s.len() == 0 {
        assert(s.push(x).drop_first() =~= Seq::<A>::empty());
        assert(s.push(x)[0] == x);
        if range_contains(m, i) {
            assert(range_filter_from(s.push(x), m, i) =~= seq![x]);
            assert(range_filter_from(s, m, i) + seq![x] =~= seq![x]);
        } else {
            assert(range_filter_from(s.push(x), m, i) =~= Seq::<A>::empty());
            assert(range_filter_from(s, m, i) + Seq::<A>::empty() =~= Seq::<A>::empty());
        }
    } else {
        assert(s.push(x).drop_first() =~= s.drop_first().push(x));
        assert(s.push(x)[0] == s[0]);
        lemma_range_filter_from_push(s.drop_first(), m, i + 1, x);
        if range_contains(m, i) {
            assert(seq![s[0]] + (range_filter_from(s.drop_first(), m, i + 1) + (if range_contains(
                m,
                i + s.len(),
            ) {
                seq![x]
            } else {
                Seq::<A>::empty()
            })) =~= (seq![s[0]] + range_filter_from(s.drop_first(), m, i + 1)) + (
            if range_contains(m, i + s.len()) {
                seq![x]
            } else {
                Seq::<A>::empty()
            }));
        } else {
            assert(range_filter_from(s.drop_first(), m, i + 1) + Seq::<A>::empty()
                =~= range_filter_from(s.drop_first(), m, i + 1));
            assert(range_filter_from(s, m, i) + Seq::<A>::empty() =~= range_filter_from(s, m, i));
        }
    }
}

/// A range that selects every position keeps the sequence unchanged.
pub proof fn lemma_range_filter_from_all<A>(s: Seq<A>, m: RangeModel, i: int)
    requires
        forall|k: int| i <= k < i + s.len() ==> range_contains(m, k),
    ensures
        range_filter_from(s, m, i) == s,
    decreases s.len(),
{
    if s.len() > 0 {
        lemma_range_filter_from_all(s.drop_first(), m, i + 1);
        assert(seq![s[0]] + s.drop_first() =~= s);
    }
}

/// A range that selects no position keeps nothing.
pub proof fn lemma_range_filter_from_none<A>(s: Seq<A>, m: RangeModel, i: int)
    requires
        forall|j: int| i <= j < i + s.len() ==> !range_contains(m, j),
    ensures
        range_filter_from(s, m, i) == Seq::<A>::empty(),
    decreases s.len(),
{
    if s.len() > 0 {
        lemma_range_filter_from_none(s.drop_first(), m, i + 1);
    }
}

/// A range that selects exactly one position keeps exactly that element.
pub proof fn lemma_range_filter_from_single<A>(s: Seq<A>, m: RangeModel, i: int, k: int)
    requires
        i <= k < i + s.len(),
        forall|j: int| i <= j < i + s.len() ==> (range_contains(m, j) <==> j == k),
    ensures
        range_filter_from(s, m, i) == seq![s[k - i]],
    decreases s.len(),
{
    if i == k {
        lemma_range_filter_from_none(s.drop_first(), m, i + 1);
        assert(seq![s[0]] + Seq::<A>::empty() =~= seq![s[0]]);
    } else {
        lemma_range_filter_from_single(s.drop_first(), m, i + 1, k);
    }
}

/// The model of character-level slicing: one field filtered by the character
/// range.
pub open spec fn slice_field_model(fd: Seq<char>, cr: RangeModel) -> Seq<char> {
    let m = normalize_model(cr, fd.len() as int);
    if m.step > 0 {
        range_filter(fd, m)
    } else {
        range_filter(fd.reverse(), m)
    }
}

/// The model of field-level slicing: one line's fields filtered by the field
/// range, each kept field filtered by the character range.
pub open spec fn slice_line_model(fields: Seq<Seq<char>>, fr: RangeModel, cr: RangeModel) -> Seq<
    Seq<char>,
> {
    let m = normalize_model(fr, fields.len() as int);
    let walked = if m.step > 0 {
        fields
    } else {
        fields.reverse()
    };
    range_filter(walked, m).map_values(|fd: Seq<char>| slice_field_model(fd, cr))
}

/// The model of the whole run: the lines selected by the line range, in walk
/// order, each sliced at field and character level.
pub open spec fn grid_slice_model(lines: Seq<Seq<Seq<char>>>, f: FilterModel) -> Seq<
    Seq<Seq<char>>,
> {
    let m = normalize_model(f.line, lines.len() as int);
    let walked = if m.step > 0 {
        lines
    } else {
        lines.reverse()
    };
    range_filter(walked, m).map_values(|ln: Seq<Seq<char>>| slice_line_model(ln, f.field, f.character))
}

/// Sequence lengths the executor can normalize against: `i64` must be able to
/// hold every index.
pub open spec fn fields_repr_ok(fields: Seq<Seq<char>>) -> bool {
    &&& fields.len() <= i64::MAX
    &&& forall|j: int| 0 <= j < fields.len() ==> (#[trigger] fields[j]).len() <= i64::MAX
}

pub open spec fn lines_repr_ok(lines: Seq<Seq<Seq<char>>>) -> bool {
    &&& lines.len() <= i64::MAX
    &&& forall|j: int| 0 <= j < lines.len() ==> fields_repr_ok(#[trigger] lines[j])
}

impl GridSliceFilter {
    /// Slices one field at character level: the characters are walked forward
    /// or backward according to the character step, and each position is
    /// tested against the normalized character range.
    fn slice_chars(&self, field: &String) -> (r: String)
        requires
            self.character.step != 0,
            field@.len() <= i64::MAX,
        ensures
            r@ == slice_field_model(field@, self.character@),
    {
        let chars = str_to_chars(field.as_str());
        let n = chars.len();
        let char_range = normalize_range(&self.character, n);
        let ghost m = normalize_model(self.character@, n as int);
        let ghost walked = if m.step > 0 {
            field@
        } else {
            field@.reverse()
        };
        let forward = char_range.step > 0;
        let mut kept: Vec<char> = Vec::new();
        let mut j: usize = 0;
        while j < n
            invariant
                j <= n,
                n <= i64::MAX,
                n == chars@.len(),
                chars@ == field@,
                char_range@ == m,
                char_range.step != 0,
                walked == if m.step > 0 {
                    field@
                } else {
                    field@.reverse()
                },
                forward == (m.step > 0),
                walked.len() == n,
                kept@ == range_filter_from(walked.take(j as int), m, 0),
            decreases n - j,
        {
            let c = if forward {
                chars[j]
            } else {
                chars[n - 1 - j]
            };
            proof {
                assert(walked[j as int] == c);
                lemma_range_filter_from_push(walked.take(j as int), m, 0, c);
                assert(walked.take(j + 1) =~= walked.take(j as int).push(walked[j as int]));
            }
            if is_inside_range(&char_range, j as i64) {
                kept.push(c);
                proof {
                    assert(range_filter_from(walked.take(j as int), m, 0) + seq![c]
                        =~= range_filter_from(walked.take(j as int), m, 0).push(c));
                }
            } else {
                proof {
                    assert(range_filter_from(walked.take(j as int), m, 0) + Seq::<char>::empty()
                        =~= range_filter_from(walked.take(j as int), m, 0));
                }
            }
            j += 1;
        }
        proof {
            assert(walked.take(n as int) =~= walked);
        }
        chars_to_string(&kept)
    }

    /// Slices one line: the fields are walked forward or backward according
    /// to the field step, each kept field is sliced at character level.
    fn slice_fields(&self, fields: &Vec<String>) -> (r: Vec<String>)
        requires
            self.field.step != 0,
            self.character.step != 0,
            fields_repr_ok(fields.deep_view()),
        ensures
            r.deep_view() == slice_line_model(fields.deep_view(), self.field@, self.character@),
    {
        let n = fields.len();
        let field_range = normalize_range(&self.field, n);
        let ghost fv = fields.deep_view();
        let ghost m = normalize_model(self.field@, n as int);
        let ghost cslice = |fd: Seq<char>| slice_field_model(fd, self.character@);
        let ghost walked = if m.step > 0 {
            fv
        } else {
            fv.reverse()
        };
        let forward = field_range.step > 0;
        let mut out: Vec<String> = Vec::new();
        let mut j: usize = 0;
        while j < n
            invariant
                j <= n,
                n == fields@.len(),
                fv == fields.deep_view(),
                fields_repr_ok(fv),
                field_range@ == m,
                field_range.step != 0,
                self.field.step != 0,
                self.character.step != 0,
                m == normalize_model(self.field@, n as int),
                cslice == (|fd: Seq<char>| slice_field_model(fd, self.character@)),
                walked == if m.step > 0 {
                    fv
                } else {
                    fv.reverse()
                },
                forward == (m.step > 0),
                walked.len() == n,
                out.deep_view() == range_filter_from(walked.take(j as int), m, 0).map_values(
                    cslice,
                ),
            decreases n - j,
        {
            let src: usize = if forward {
                j
            } else {
                n - 1 - j
            };
            proof {
                assert(fv[src as int] == fields@[src as int]@);
                assert(walked[j as int] == fv[src as int]);
                lemma_range_filter_from_push(walked.take(j as int), m, 0, walked[j as int]);
                assert(walked.take(j + 1) =~= walked.take(j as int).push(walked[j as int]));
            }
            if is_inside_range(&field_range, j as i64) {
                let sliced = self.slice_chars(&fields[src]);
                let ghost prev = out.deep_view();
                out.push(sliced);
                proof {
                    assert(out.deep_view() =~= prev.push(sliced@));
                    let base = range_filter_from(walked.take(j as int), m, 0);
                    assert((base + seq![walked[j as int]]).map_values(cslice) =~= base.map_values(
                        cslice,
                    ).push(cslice(walked[j as int])));
                }
            } else {
                proof {
                    let base = range_filter_from(walked.take(j as int), m, 0);
                    assert(base + Seq::<Seq<char>>::empty() =~= base);
                }
            }
            j += 1;
        }
        proof {
            assert(walked.take(n as int) =~= walked);
        }
        out
    }

    /// Streaming mode: judges one line against the raw line range as it
    /// arrives, without knowing the total line count.  Sound only for a line
    /// range that does not force buffering; then the raw range is already in
    /// normal form, so the verdict agrees with the buffered path.
    pub fn stream_line(&self, index: usize, fields: &Vec<String>) -> (r: Option<Vec<String>>)
        requires
            !crate::slice_range::spec_needs_buffering(self.line@),
            self.line.step != 0,
            self.field.step != 0,
            self.character.step != 0,
            index <= i64::MAX,
            fields_repr_ok(fields.deep_view()),
        ensures
            match r {
                Some(rec) => range_contains(self.line@, index as int) && rec.deep_view()
                    == slice_line_model(fields.deep_view(), self.field@, self.character@),
                None => !range_contains(self.line@, index as int),
            },
    {
        if is_inside_range(&self.line, index as i64) {
            Some(self.slice_fields(fields))
        } else {
            None
        }
    }
}

/// Reverses a vector.
fn reverse_vec<T>(v: Vec<T>) -> (r: Vec<T>)
    ensures
        r@ == v@.reverse(),
{
    let ghost orig = v@;
    let mut v = v;
    let mut r: Vec<T> = Vec::new();
    while v.len() > 0
        invariant
            v@ == orig.take(v@.len() as int),
            r@ == orig.skip(v@.len() as int).reverse(),
            v@.len() <= orig.len(),
        decreases v.len(),
    {
        let ghost k = v@.len() - 1;
        let x = v.pop().unwrap();
        r.push(x);
        proof {
            assert(v@ =~= orig.take(k));
            assert(orig.skip(k).reverse() =~= orig.skip(k + 1).reverse().push(orig[k]));
        }
    }
    proof {
        assert(orig.skip(0) =~= orig);
    }
    r
}

/// The executor: holds the filter (its line range already normalized when
/// buffering was needed), the input lines in walk order, and the running line
/// counter.
pub struct GridSlice {
    grid_slice: GridSliceFilter,
    lines: Vec<Vec<String>>,
    num_line: usize,
}

impl GridSlice {
    /// Well-formedness: non-zero steps, a counter within bounds, and lengths
    /// that the membership test can index with `i64`.
    pub closed spec fn wf(self) -> bool {
        &&& self.grid_slice.line.step != 0
        &&& self.grid_slice.field.step != 0
        &&& self.grid_slice.character.step != 0
        &&& self.num_line <= self.lines@.len()
        &&& lines_repr_ok(self.lines.deep_view())
    }

    /// The records this executor has yet to emit.
    pub closed spec fn remaining(self) -> Seq<Seq<Seq<char>>> {
        range_filter_from(
            self.lines.deep_view().skip(self.num_line as int),
            self.grid_slice.line@,
            self.num_line as int,
        ).map_values(
            |ln: Seq<Seq<char>>| slice_line_model(ln, self.grid_slice.field@, self.grid_slice.character@),
        )
    }

    /// Emits the next record: skips lines whose index the line range rejects,
    /// and slices the first accepted one at field and character level.
    /// Returns `None` when no line is left to accept.
    pub fn next(&mut self) -> (r: Option<Vec<String>>)
        requires
            old(self).wf(),
        ensures
            final(self).wf(),
            match r {
                Some(rec) => old(self).remaining() == seq![rec.deep_view()]
                    + final(self).remaining(),
                None => old(self).remaining() == Seq::<Seq<Seq<char>>>::empty()
                    && final(self).remaining() == Seq::<Seq<Seq<char>>>::empty(),
            },
    {
        let ghost cslice = |ln: Seq<Seq<char>>| slice_line_model(
            ln,
            self.grid_slice.field@,
            self.grid_slice.character@,
        );
        while self.num_line < self.lines.len()
            invariant
                self.wf(),
                self.grid_slice == old(self).grid_slice,
                self.lines == old(self).lines,
                old(self).num_line <= self.num_line,
                self.remaining() == old(self).remaining(),
                cslice == (|ln: Seq<Seq<char>>| slice_line_model(
                    ln,
                    self.grid_slice.field@,
                    self.grid_slice.character@,
                )),
            decreases self.lines@.len() - self.num_line,
        {
            let idx = self.num_line;
            let ghost l = self.lines.deep_view();
            let ghost m = self.grid_slice.line@;
            proof {
                assert(l.skip(idx as int).drop_first() =~= l.skip(idx + 1));
                assert(l.skip(idx as int)[0] == l[idx as int]);
            }
            self.num_line = idx + 1;
            if is_inside_range(&self.grid_slice.line, idx as i64) {
                let rec = self.grid_slice.slice_fields(&self.lines[idx]);
                proof {
                    assert(fields_repr_ok(l[idx as int]));
                    assert((seq![l[idx as int]] + range_filter_from(l.skip(idx + 1), m, idx + 1)).map_values(
                        cslice,
                    ) =~= seq![cslice(l[idx as int])] + range_filter_from(
                        l.skip(idx + 1),
                        m,
                        idx + 1,
                    ).map_values(cslice));
                }
                return Some(rec);
            }
        }
        proof {
            assert(self.lines.deep_view().skip(self.num_line as int) =~= Seq::<
                Seq<Seq<char>>,
            >::empty());
            assert(Seq::<Seq<Seq<char>>>::empty().map_values(cslice) =~= Seq::<
                Seq<Seq<char>>,
            >::empty());
        }
        None
    }

    /// Emits every remaining record, in order.
    pub fn collect_remaining(&mut self) -> (r: Vec<Vec<String>>)
        requires
            old(self).wf(),
        ensures
            final(self).wf(),
            r.deep_view() == old(self).remaining(),
    {
        let mut out: Vec<Vec<String>> = Vec::new();
        loop
            invariant
                self.wf(),
                old(self).remaining() == out.deep_view() + self.remaining(),
            ensures
                self.wf(),
                old(self).remaining() == out.deep_view(),
            decreases self.remaining().len(),
        {
            let ghost prev = out.deep_view();
            match self.next() {
                Some(rec) => {
                    out.push(rec);
                    proof {
                        assert(out.deep_view() =~= prev.push(rec.deep_view()));
                        assert(prev + (seq![rec.deep_view()] + self.remaining()) =~= prev.push(
                            rec.deep_view(),
                        ) + self.remaining());
                    }
                },
                None => {
                    proof {
                        assert(prev + Seq::<Seq<Seq<char>>>::empty() =~= prev);
                    }
                    break;
                },
            }
        }
        out
    }
}

/// Builds the executor from a filter and the input lines, applying the
/// buffering decision rule: when the raw line range needs the total line
/// count, the line range is normalized against it now and the lines are
/// reversed for a negative step; otherwise the lines are judged against the
/// raw range, which is already in normal form.
pub fn grid_slice_iter(grid_slice: GridSliceFilter, lines: Vec<Vec<String>>) -> (gs: GridSlice)
    requires
        grid_slice.line.step != 0,
        grid_slice.field.step != 0,
        grid_slice.character.step != 0,
        lines_repr_ok(lines.deep_view()),
    ensures
        gs.wf(),
        gs.remaining() == grid_slice_model(lines.deep_view(), grid_slice@),
{
    let ghost l = lines.deep_view();
    let ghost n = l.len() as int;
    let post_process = grid_slice.needs_buffering();
    let gs = if post_process {
        let line_range = normalize_range(&grid_slice.line, lines.len());
        let filter = GridSliceFilter {
            line: line_range,
            field: grid_slice.field,
            character: grid_slice.character,
        };
        if line_range.step < 0 {
            let rev = reverse_vec(lines);
            proof {
                assert(rev.deep_view() =~= l.reverse());
                assert forall|j: int| 0 <= j < l.reverse().len() implies fields_repr_ok(
                    #[trigger] l.reverse()[j],
                ) by {
                    assert(l.reverse()[j] == l[l.len() - 1 - j]);
                }
            }
            GridSlice { grid_slice: filter, lines: rev, num_line: 0 }
        } else {
            GridSlice { grid_slice: filter, lines, num_line: 0 }
        }
    } else {
        proof {
            lemma_streaming_range_is_normal(grid_slice.line@, n);
        }
        GridSlice { grid_slice, lines, num_line: 0 }
    };
    proof {
        assert(gs.lines.deep_view().skip(0) =~= gs.lines.deep_view());
    }
    gs
}

/// The filter model of an expression that states no bound on any axis.
pub open spec fn identity_filter_model() -> FilterModel {
    FilterModel {
        line: default_range_model(),
        field: default_range_model(),
        character: default_range_model(),
    }
}

/// The default range selects every position.
proof fn lemma_default_contains_all(k: int)
    requires
        0 <= k,
    ensures
        range_contains(default_range_model(), k),
{
    assert(vstd::math::abs(0 - k) % vstd::math::abs(1) == 0);
}

/// A field is unchanged by the default character range.
pub proof fn lemma_identity_field(fd: Seq<char>)
    ensures
        slice_field_model(fd, default_range_model()) == fd,
{
    let m = normalize_model(default_range_model(), fd.len() as int);
    assert(m == default_range_model());
    assert forall|k: int| 0 <= k < fd.len() implies range_contains(m, k) by {
        lemma_default_contains_all(k);
    }
    lemma_range_filter_from_all(fd, m, 0);
}

/// A line is unchanged by default field and character ranges.
pub proof fn lemma_identity_line(fields: Seq<Seq<char>>)
    ensures
        slice_line_model(fields, default_range_model(), default_range_model()) == fields,
{
    let m = normalize_model(default_range_model(), fields.len() as int);
    assert(m == default_range_model());
    assert forall|k: int| 0 <= k < fields.len() implies range_contains(m, k) by {
        lemma_default_contains_all(k);
    }
    lemma_range_filter_from_all(fields, m, 0);
    assert(fields.map_values(|fd: Seq<char>| slice_field_model(fd, default_range_model()))
        =~= fields) by {
        assert forall|j: int| 0 <= j < fields.len() implies slice_field_model(
            #[trigger] fields[j],
            default_range_model(),
        ) == fields[j] by {
            lemma_identity_field(fields[j]);
        }
    }
}

/// An expression with no axis specified on any position is the identity
/// slice: filtering returns every line, every field and every character
/// unchanged.
pub proof fn lemma_identity_slice(lines: Seq<Seq<Seq<char>>>)
    ensures
        grid_slice_model(lines, identity_filter_model()) == lines,
{
    let m = normalize_model(default_range_model(), lines.len() as int);
    assert(m == default_range_model());
    assert forall|k: int| 0 <= k < lines.len() implies range_contains(m, k) by {
        lemma_default_contains_all(k);
    }
    lemma_range_filter_from_all(lines, m, 0);
    assert(lines.map_values(
        |ln: Seq<Seq<char>>| slice_line_model(ln, default_range_model(), default_range_model()),
    ) =~= lines) by {
        assert forall|j: int| 0 <= j < lines.len() implies slice_line_model(
            #[trigger] lines[j],
            default_range_model(),
            default_range_model(),
        ) == lines[j] by {
            lemma_identity_line(lines[j]);
        }
    }
}

/// A pin selects exactly one index: a filter whose line range pins index `k`
/// within the input emits exactly one record, the `k`-th line sliced at field
/// and character level.
pub proof fn lemma_pin_line_selects_one_line(lines: Seq<Seq<Seq<char>>>, k: int, f: FilterModel)
    requires
        0 <= k < lines.len(),
        f.line.from == k,
        f.line.to == Some(k),
        f.line.step == 1,
    ensures
        grid_slice_model(lines, f) == seq![slice_line_model(lines[k], f.field, f.character)],
{
    let n = lines.len() as int;
    let m = normalize_model(f.line, n);
    assert(m == f.line);
    assert forall|j: int| 0 <= j < n implies (range_contains(m, j) <==> j == k) by {
        crate::slice_range::lemma_pin_selects_one(k, f.line.exclude, j);
    }
    lemma_range_filter_from_single(lines, m, 0, k);
    let cslice = |ln: Seq<Seq<char>>| slice_line_model(ln, f.field, f.character);
    assert(seq![lines[k]].map_values(cslice) =~= seq![cslice(lines[k])]);
}

/// The line range that walks every line backwards.
pub open spec fn reverse_line_range_model() -> RangeModel {
    RangeModel { from: 0, to: None, step: -1, exclude: false }
}

/// A negative line step reverses emission order entirely: with line range
/// `{from: 0, to: unbounded, step: -1}` and default field and character
/// ranges, the output is exactly the input lines in reverse order.
pub proof fn lemma_negative_line_step_reverses(lines: Seq<Seq<Seq<char>>>)
    ensures
        grid_slice_model(
            lines,
            FilterModel {
                line: reverse_line_range_model(),
                field: default_range_model(),
                character: default_range_model(),
            },
        ) == lines.reverse(),
{
    let n = lines.len() as int;
    let m = normalize_model(reverse_line_range_model(), n);
    let walked = lines.reverse();
    assert(m.step == -1);
    assert forall|k: int| 0 <= k < walked.len() implies range_contains(m, k) by {
        assert(m.from <= 0);
        assert(vstd::math::abs(m.from - k) % vstd::math::abs(-1) == 0);
    }
    lemma_range_filter_from_all(walked, m, 0);
    assert(walked.map_values(
        |ln: Seq<Seq<char>>| slice_line_model(ln, default_range_model(), default_range_model()),
    ) =~= walked) by {
        assert forall|j: int| 0 <= j < walked.len() implies slice_line_model(
            #[trigger] walked[j],
            default_range_model(),
            default_range_model(),
        ) == walked[j] by {
            lemma_identity_line(walked[j]);
        }
    }
}

} // verus!
