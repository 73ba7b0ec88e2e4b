//! Path translation session: converts a batch of host paths to their
//! foreign-subsystem form through repeated invocations of the subsystem's
//! `wslpath` helper, batching paths so that no invocation exceeds the
//! command-line ceiling, preserving input order, and supporting
//! cooperative cancellation between batches.
//!
//! The session is a state machine: the driver repeatedly takes the next
//! batch command from `next_command`, runs it in the foreign subsystem,
//! and hands the NUL-separated output back through `feed_output`; between
//! batches it may report `progress` and call `cancel`.  Running the
//! subprocess itself is the driver's concern, outside these engines.

use vstd::prelude::*;
use crate::compose::{MAX_CMD_LEN, MAX_PATH_LEN};
use crate::error::Error;
use crate::quote::{single_quote_escape, spec_escape};
use crate::strutil::push_char;

verus! {

/// Ceiling on one batch command: the command-line ceiling minus headroom
/// for one maximum-length path and fixed overhead.
pub const BATCH_CEILING: usize = MAX_CMD_LEN - MAX_PATH_LEN - 100;

/// The translation segment appended for one path.
pub open spec fn spec_segment(p: Seq<char>) -> Seq<char> {
    " \"$(wslpath -u '"@ + spec_escape(p) + "')\""@
}

/// The segments of a path list, in order.
pub open spec fn spec_segments(paths: Seq<Seq<char>>) -> Seq<char>
    decreases paths.len(),
{
    if paths.len() == 0 {
        Seq::empty()
    } else {
        spec_segments(paths.drop_last()) + spec_segment(paths.last())
    }
}

/// The whole batch command for a path list: a `printf` that prints each
/// converted path NUL-terminated.
pub open spec fn spec_printf_cmd(paths: Seq<Seq<char>>) -> Seq<char> {
    (r"printf '%s\0'")@ + spec_segments(paths)
}

/// End of the batch that starts at `lo`, scanning forward from `e`: paths
/// are taken while the command so far stays under the ceiling.
pub open spec fn batch_end_from(paths: Seq<Seq<char>>, lo: int, e: int) -> int
    decreases paths.len() - e,
{
    if e >= paths.len() {
        paths.len() as int
    } else if spec_printf_cmd(paths.subrange(lo, e)).len() >= BATCH_CEILING {
        e
    } else {
        batch_end_from(paths, lo, e + 1)
    }
}

/// End of the batch that starts at `lo`: at least one path is always
/// taken, further paths as long as the command stays under the ceiling.
pub open spec fn batch_end(paths: Seq<Seq<char>>, lo: int) -> int {
    batch_end_from(paths, lo, lo + 1)
}

/// A batch always takes at least one path and never runs past the end.
pub proof fn lemma_batch_end_bounds(paths: Seq<Seq<char>>, lo: int)
    requires
        0 <= lo < paths.len(),
    ensures
        lo < batch_end(paths, lo) <= paths.len(),
{
    lemma_batch_end_from_bounds(paths, lo, lo + 1);
}

proof fn lemma_batch_end_from_bounds(paths: Seq<Seq<char>>, lo: int, e: int)
    requires
        0 <= lo < e <= paths.len(),
    ensures
        e <= batch_end_from(paths, lo, e) <= paths.len(),
    decreases paths.len() - e,
{
    if e < paths.len() && spec_printf_cmd(paths.subrange(lo, e)).len() < BATCH_CEILING {
        lemma_batch_end_from_bounds(paths, lo, e + 1);
    }
}

/// The concatenation of all batches from `lo` on.
pub open spec fn batches_concat(paths: Seq<Seq<char>>, lo: int) -> Seq<Seq<char>>
    recommends
        0 <= lo <= paths.len(),
    decreases paths.len() - lo,
        when 0 <= lo <= paths.len()
{
    if lo >= paths.len() {
        Seq::empty()
    } else {
        let e = if lo < batch_end(paths, lo) <= paths.len() {
            batch_end(paths, lo)
        } else {
            paths.len() as int
        };
        paths.subrange(lo, e) + batches_concat(paths, e)
    }
}

/// Batch completeness law: the concatenation of all batches, in order,
/// is exactly the remaining path list — no path is dropped, duplicated
/// or reordered by batching.
pub proof fn lemma_batches_cover(paths: Seq<Seq<char>>, lo: int)
    requires
        0 <= lo <= paths.len(),
    ensures
        batches_concat(paths, lo) == paths.skip(lo),
    decreases paths.len() - lo,
{
    if lo >= paths.len() {
        assert(paths.skip(lo) =~= Seq::<Seq<char>>::empty());
    } else {
        lemma_batch_end_bounds(paths, lo);
        let e = batch_end(paths, lo);
        lemma_batches_cover(paths, e);
        assert(paths.subrange(lo, e) + paths.skip(e) =~= paths.skip(lo));
    }
}

/// Index of the first NUL in `s`, or `-1` if there is none.
pub open spec fn first_nul(s: Seq<char>) -> int
    decreases s.len(),
{
    if s.len() == 0 {
        -1
    } else if s[0] == '\0' {
        0
    } else if first_nul(s.drop_first()) < 0 {
        -1
    } else {
        first_nul(s.drop_first()) + 1
    }
}

proof fn lemma_first_nul_at(s: Seq<char>, i: int)
    requires
        0 <= i < s.len(),
        forall|k: int| 0 <= k < i ==> s[k] != '\0',
        s[i] == '\0',
    ensures
        first_nul(s) == i,
    decreases i,
{
    if i > 0 {
        assert(forall|k: int| 0 <= k < i - 1 ==> s.drop_first()[k] != '\0');
        lemma_first_nul_at(s.drop_first(), i - 1);
    }
}

proof fn lemma_first_nul_none(s: Seq<char>)
    requires
        forall|k: int| 0 <= k < s.len() ==> s[k] != '\0',
    ensures
        first_nul(s) == -1,
    decreases s.len(),
{
    if s.len() > 0 {
        assert(forall|k: int| 0 <= k < s.drop_first().len() ==> s.drop_first()[k] != '\0');
        lemma_first_nul_none(s.drop_first());
    }
}

/// The fields of `s` split on NUL.
pub open spec fn split_nul(s: Seq<char>) -> Seq<Seq<char>>
    decreases s.len(),
{
    let i = first_nul(s);
    if i < 0 || i >= s.len() {
        seq![s]
    } else {
        seq![s.subrange(0, i)] + split_nul(s.skip(i + 1))
    }
}

/// The path list that a batch's collected output denotes: the output
/// split on NUL, with the trailing empty field caused by the final NUL
/// removed.
pub open spec fn spec_parse_output(s: Seq<char>) -> Seq<Seq<char>> {
    let fields = split_nul(s);
    if fields.last().len() == 0 {
        fields.drop_last()
    } else {
        fields
    }
}

/// Split a batch's collected output on NUL, trimming the trailing empty
/// field caused by the final NUL.
pub fn parse_wsl_output(out: &str) -> (r: Vec<String>)
    ensures
        r.deep_view() == spec_parse_output(out@),
{
    let len = out.unicode_len();
    let mut fields: Vec<String> = Vec::new();
    let mut cur = String::new();
    let mut start: usize = 0;
    let mut i: usize = 0;
    proof {
        assert(out@.skip(0) =~= out@);
        assert(fields.deep_view() =~= Seq::<Seq<char>>::empty());
        assert(fields.deep_view() + split_nul(out@) =~= split_nul(out@));
        assert(cur@ =~= out@.subrange(0, 0));
    }
    while i < len
        invariant
            start <= i <= len,
            len == out@.len(),
            cur@ == out@.subrange(start as int, i as int),
            forall|k: int| start <= k < i ==> out@[k] != '\0',
            split_nul(out@) == fields.deep_view() + split_nul(out@.skip(start as int)),
            fields.deep_view() =~= Seq::new(
                fields@.len() as nat,
                |k: int| fields@[k]@,
            ),
        decreases len - i,
    {
        let c = out.get_char(i);
        if c == '\0' {
            proof {
                let rest = out@.skip(start as int);
                assert(forall|k: int| 0 <= k < i - start ==> rest[k] == out@[k + start]);
                lemma_first_nul_at(rest, i - start);
                assert(rest.subrange(0, i - start) =~= out@.subrange(start as int, i as int));
                assert(rest.skip(i - start + 1) =~= out@.skip(i + 1));
            }
            fields.push(cur);
            proof {
                assert(fields.deep_view() =~= fields.deep_view().drop_last().push(
                    out@.subrange(start as int, i as int),
                ));
                assert(split_nul(out@) =~= fields.deep_view() + split_nul(out@.skip(i + 1)));
            }
            cur = String::new();
            start = i + 1;
            proof {
                assert(cur@ =~= out@.subrange(start as int, start as int));
            }
        } else {
            push_char(&mut cur, c);
            proof {
                assert(cur@ =~= out@.subrange(start as int, i + 1));
            }
        }
        i = i + 1;
    }
    proof {
        let rest = out@.skip(start as int);
        assert(forall|k: int| 0 <= k < rest.len() ==> rest[k] == out@[k + start] && rest[k] != '\0');
        lemma_first_nul_none(rest);
        assert(split_nul(rest) =~= seq![rest]);
        assert(cur@ =~= rest);
    }
    let tail_len = cur.as_str().unicode_len();
    if tail_len > 0 {
        fields.push(cur);
        proof {
            assert(fields.deep_view() =~= split_nul(out@));
            assert(split_nul(out@).last().len() > 0);
        }
        fields
    } else {
        proof {
            let all = fields.deep_view().push(cur@);
            assert(all =~= split_nul(out@));
            assert(split_nul(out@).last().len() == 0);
            assert(fields.deep_view() =~= split_nul(out@).drop_last());
        }
        fields
    }
}

/// Build the batch command starting at path index `lo`: paths are taken
/// while the command stays under the ceiling, at least one always.
/// Returns the command and the index just past the batch.
fn build_batch(paths: &Vec<String>, lo: usize) -> (r: (String, usize))
    requires
        lo < paths@.len(),
    ensures
        ({
            let vp = paths.deep_view();
            &&& lo < r.1 <= vp.len()
            &&& r.1 == batch_end(vp, lo as int)
            &&& r.0@ == spec_printf_cmd(vp.subrange(lo as int, r.1 as int))
        }),
{
    let ghost vp = paths.deep_view();
    proof {
        assert(vp =~= Seq::new(paths@.len() as nat, |k: int| paths@[k]@));
    }
    let n = paths.len();
    let mut cmd = String::from_str(r"printf '%s\0'");
    let mut idx = lo;
    proof {
        assert(vp.subrange(lo as int, lo as int) =~= Seq::<Seq<char>>::empty());
        assert(spec_segments(Seq::<Seq<char>>::empty()) =~= Seq::<char>::empty());
        assert(cmd@ =~= spec_printf_cmd(vp.subrange(lo as int, lo as int)));
    }
    loop
        invariant
            lo <= idx <= n,
            lo < n,
            n == vp.len(),
            vp == paths.deep_view(),
            vp =~= Seq::new(paths@.len() as nat, |k: int| paths@[k]@),
            cmd@ == spec_printf_cmd(vp.subrange(lo as int, idx as int)),
            idx > lo ==> batch_end(vp, lo as int) == batch_end_from(vp, lo as int, idx as int),
        ensures
            lo < idx <= n,
            cmd@ == spec_printf_cmd(vp.subrange(lo as int, idx as int)),
            idx == batch_end(vp, lo as int),
        decreases n - idx,
    {
        if idx >= n {
            proof {
                assert(idx == n);
                assert(batch_end_from(vp, lo as int, idx as int) == n);
            }
            break ;
        }
        if cmd.as_str().unicode_len() >= BATCH_CEILING {
            proof {
                if idx == lo {
                    reveal_strlit(r"printf '%s\0'");
                    assert(vp.subrange(lo as int, lo as int) =~= Seq::<Seq<char>>::empty());
                    assert(spec_segments(Seq::<Seq<char>>::empty()) =~= Seq::<char>::empty());
                    assert(cmd@.len() == 13);
                    assert(false);
                }
                assert(batch_end_from(vp, lo as int, idx as int) == idx);
            }
            break ;
        }
        cmd.append(" \"$(wslpath -u '");
        let esc = single_quote_escape(paths[idx].as_str());
        cmd.append(esc.as_str());
        cmd.append("')\"");
        proof {
            assert(vp.subrange(lo as int, idx + 1).drop_last() =~= vp.subrange(
                lo as int,
                idx as int,
            ));
            assert(vp.subrange(lo as int, idx + 1).last() == vp[idx as int]);
            assert(cmd@ =~= spec_printf_cmd(vp.subrange(lo as int, idx + 1)));
        }
        idx = idx + 1;
    }
    (cmd, idx)
}

/// A path translation session.
pub struct PathTranslation {
    /// The host paths to convert.
    pub paths: Vec<String>,
    /// Index of the first path not yet covered by an issued batch.
    pub next: usize,
    /// The converted paths collected so far, in input order.
    pub converted: Vec<String>,
    /// Whether the caller has cancelled the session.
    pub cancelled: bool,
}

impl PathTranslation {
    /// Well-formedness of the session state.
    pub open spec fn wf(&self) -> bool {
        self.next <= self.paths@.len()
    }

    /// Start a session over the given host paths.
    pub fn new(paths: Vec<String>) -> (r: Self)
        ensures
            r.wf(),
            r.paths@ == paths@,
            r.next == 0,
            r.converted@.len() == 0,
            !r.cancelled,
    {
        PathTranslation { paths, next: 0, converted: Vec::new(), cancelled: false }
    }

    /// The number of paths converted so far, for progress reporting.
    pub fn progress(&self) -> (r: usize)
        ensures
            r == self.converted@.len(),
    {
        self.converted.len()
    }

    /// Cancel the session: no further batch command is issued.
    pub fn cancel(&mut self)
        ensures
            final(self).cancelled,
            final(self).paths == old(self).paths,
            final(self).next == old(self).next,
            final(self).converted == old(self).converted,
    {
        self.cancelled = true;
    }

    /// The batch command to run next: `None` when the session is
    /// cancelled or every path is covered, else the `printf` command for
    /// the paths `[next, batch_end)`.
    pub fn next_command(&self) -> (r: Option<String>)
        requires
            self.wf(),
        ensures
            ({
                let vp = self.paths.deep_view();
                if self.cancelled || self.next >= vp.len() {
                    r is None
                } else {
                    r is Some && r->Some_0@ == spec_printf_cmd(
                        vp.subrange(self.next as int, batch_end(vp, self.next as int)),
                    )
                }
            }),
    {
        if self.cancelled || self.next >= self.paths.len() {
            return None;
        }
        let (cmd, _) = build_batch(&self.paths, self.next);
        Some(cmd)
    }

    /// Record one batch's collected output: its parsed fields extend the
    /// converted list and the batch's paths are marked covered.
    pub fn feed_output(&mut self, out: &str)
        requires
            old(self).wf(),
            !old(self).cancelled,
            old(self).next < old(self).paths@.len(),
        ensures
            final(self).wf(),
            final(self).paths == old(self).paths,
            final(self).cancelled == old(self).cancelled,
            final(self).next == batch_end(old(self).paths.deep_view(), old(self).next as int),
            final(self).converted.deep_view() == old(self).converted.deep_view()
                + spec_parse_output(out@),
    {
        let (_, end) = build_batch(&self.paths, self.next);
        self.next = end;
        // append the parsed fields in order
        let parsed = parse_wsl_output(out);
        let ghost before = self.converted.deep_view();
        let ghost before_at = self.converted@;
        let m = parsed.len();
        let mut j: usize = 0;
        proof {
            assert(before_at + parsed@.take(0) =~= before_at);
        }
        proof {
            assert(before =~= Seq::new(before_at.len() as nat, |k: int| before_at[k]@));
        }
        while j < m
            invariant
                j <= m,
                m == parsed@.len(),
                parsed.deep_view() == spec_parse_output(out@),
                before == Seq::new(before_at.len() as nat, |k: int| before_at[k]@),
                before == old(self).converted.deep_view(),
                self.converted@ == before_at + parsed@.take(j as int),
                self.paths == old(self).paths,
                self.cancelled == old(self).cancelled,
                self.next <= self.paths@.len(),
                self.next == batch_end(old(self).paths.deep_view(), old(self).next as int),
            decreases m - j,
        {
            let s = parsed[j].clone();
            self.converted.push(s);
            proof {
                assert(self.converted@ =~= before_at + parsed@.take(j + 1));
            }
            j = j + 1;
        }
        proof {
            assert(parsed@.take(m as int) =~= parsed@);
            assert(self.converted@ == before_at + parsed@);
            assert forall|k: int| 0 <= k < self.converted@.len() implies #[trigger] self
                .converted
                .deep_view()[k] == (before + parsed.deep_view())[k] by {
                if k < before_at.len() {
                    assert(self.converted@[k] == before_at[k]);
                } else {
                    assert(self.converted@[k] == parsed@[k - before_at.len()]);
                }
            }
            assert(self.converted.deep_view() =~= before + parsed.deep_view());
        }
    }

    /// Finish the session: a cancelled session reports the distinct
    /// `Cancel` outcome, never a partial result; otherwise the converted
    /// paths are returned in input order.
    pub fn finish(self) -> (r: Result<Vec<String>, Error>)
        requires
            self.cancelled || self.next == self.paths@.len(),
        ensures
            self.cancelled ==> (r matches Err(e) && e == Error::Cancel),
            !self.cancelled ==> (r matches Ok(v) && v.deep_view() == self.converted.deep_view()),
    {
        if self.cancelled {
            Err(Error::Cancel)
        } else {
            Ok(self.converted)
        }
    }
}

/// The collected output of a subsystem invocation that echoes each of its
/// paths back NUL-terminated.
pub open spec fn spec_echo_output(paths: Seq<Seq<char>>) -> Seq<char>
    decreases paths.len(),
{
    if paths.len() == 0 {
        Seq::empty()
    } else {
        spec_echo_output(paths.drop_last()) + paths.last() + seq!['\0']
    }
}

proof fn lemma_split_echo(paths: Seq<Seq<char>>, tail: Seq<char>)
    requires
        forall|i: int| 0 <= i < paths.len() ==> !(#[trigger] paths[i]).contains('\0'),
    ensures
        split_nul(spec_echo_output(paths) + tail) == paths + split_nul(tail),
    decreases paths.len(),
{
    if paths.len() == 0 {
        assert(spec_echo_output(paths) + tail =~= tail);
        assert(paths + split_nul(tail) =~= split_nul(tail));
    } else {
        let first = paths[0];
        let rest = paths.drop_first();
        assert(forall|i: int|
            0 <= i < rest.len() ==> !(#[trigger] rest[i]).contains('\0'));
        lemma_echo_shift(paths);
        let w = spec_echo_output(paths) + tail;
        assert(w =~= first + seq!['\0'] + (spec_echo_output(rest) + tail));
        let w2 = spec_echo_output(rest) + tail;
        assert(forall|k: int| 0 <= k < first.len() ==> w[k] == first[k] && w[k] != '\0') by {
            assert(forall|k: int| 0 <= k < first.len() ==> first[k] != '\0');
        }
        assert(w[first.len() as int] == '\0');
        lemma_first_nul_at(w, first.len() as int);
        assert(w.subrange(0, first.len() as int) =~= first);
        assert(w.skip(first.len() as int + 1) =~= w2);
        lemma_split_echo(rest, tail);
        assert(seq![first] + (rest + split_nul(tail)) =~= paths + split_nul(tail));
    }
}

/// Echoing is the same whether built from the front or the back.
proof fn lemma_echo_shift(paths: Seq<Seq<char>>)
    requires
        paths.len() > 0,
    ensures
        spec_echo_output(paths) == paths[0] + seq!['\0'] + spec_echo_output(paths.drop_first()),
    decreases paths.len(),
{
    if paths.len() == 1 {
        assert(paths.drop_last() =~= Seq::<Seq<char>>::empty());
        assert(paths.drop_first() =~= Seq::<Seq<char>>::empty());
        assert(spec_echo_output(Seq::<Seq<char>>::empty()) =~= Seq::<char>::empty());
        assert(spec_echo_output(paths) == spec_echo_output(paths.drop_last()) + paths.last()
            + seq!['\0']);
        assert(spec_echo_output(paths) =~= paths[0] + seq!['\0']);
        assert(paths[0] + seq!['\0'] + spec_echo_output(paths.drop_first()) =~= paths[0]
            + seq!['\0']);
    } else {
        let a = paths.drop_last();
        lemma_echo_shift(a);
        assert(a[0] == paths[0]);
        assert(a.drop_first() =~= paths.drop_first().drop_last());
        assert(paths.drop_first().last() == paths.last());
        assert(spec_echo_output(paths) == spec_echo_output(a) + paths.last() + seq!['\0']);
        assert(spec_echo_output(paths.drop_first()) == spec_echo_output(paths.drop_first().drop_last())
            + paths.last() + seq!['\0']);
        assert(paths[0] + seq!['\0'] + (spec_echo_output(a.drop_first()) + paths.last()
            + seq!['\0']) =~= (paths[0] + seq!['\0'] + spec_echo_output(a.drop_first()))
            + paths.last() + seq!['\0']);
    }
}

/// Echo round-trip law: parsing the output of an invocation that echoes
/// its paths back NUL-terminated yields exactly those paths, for any
/// paths free of NUL (a path may hold any character except NUL).
pub proof fn lemma_parse_echo(paths: Seq<Seq<char>>)
    requires
        forall|i: int| 0 <= i < paths.len() ==> !(#[trigger] paths[i]).contains('\0'),
    ensures
        spec_parse_output(spec_echo_output(paths)) == paths,
{
    let out = spec_echo_output(paths);
    assert(out + Seq::<char>::empty() =~= out);
    lemma_split_echo(paths, Seq::empty());
    lemma_first_nul_none(Seq::empty());
    assert(split_nul(Seq::<char>::empty()) =~= seq![Seq::<char>::empty()]);
    let fields = split_nul(out);
    assert(fields =~= paths + seq![Seq::<char>::empty()]);
    assert(fields.last().len() == 0);
    assert(fields.drop_last() =~= paths);
}

} // verus!
