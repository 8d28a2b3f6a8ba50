use vstd::prelude::*;

verus! {

/// Adds `n` rows to an output whose open shard holds `cur` rows: the open
/// shard is filled to `r` rows and closed, as often as the rows allow.
/// Gives the closed shards' sizes appended to `done`, and the rows of the
/// shard left open.
pub open spec fn feed(done: Seq<nat>, cur: nat, n: nat, r: nat) -> (Seq<nat>, nat)
    decreases n,
{
    if n == 0 || r == 0 || cur >= r {
        (done, cur + n)
    } else if cur + n < r {
        (done, cur + n)
    } else {
        feed(done.push(r), 0, (n - (r - cur)) as nat, r)
    }
}

/// Feeds whole batches of the given row counts, in order, from an empty output.
pub open spec fn feed_all(batches: Seq<nat>, r: nat) -> (Seq<nat>, nat)
    decreases batches.len(),
{
    if batches.len() == 0 {
        (Seq::empty(), 0)
    } else {
        let (done, cur) = feed_all(batches.drop_last(), r);
        feed(done, cur, batches.last(), r)
    }
}

pub open spec fn sum(s: Seq<nat>) -> nat
    decreases s.len(),
{
    if s.len() == 0 {
        0
    } else {
        sum(s.drop_last()) + s.last()
    }
}

/// The shards of an output: the closed ones, then the open one if it holds rows.
pub open spec fn shard_sizes(done: Seq<nat>, cur: nat) -> Seq<nat> {
    if cur > 0 {
        done.push(cur)
    } else {
        done
    }
}

proof fn lemma_feed(done: Seq<nat>, cur: nat, n: nat, r: nat)
    requires
        r > 0,
        cur < r,
        forall|i: int| 0 <= i < done.len() ==> done[i] == r,
    ensures
        ({
            let (d2, c2) = feed(done, cur, n, r);
            &&& c2 < r
            &&& forall|i: int| 0 <= i < d2.len() ==> d2[i] == r
            &&& sum(d2) + c2 == sum(done) + cur + n
            &&& d2.len() >= done.len()
            &&& d2.subrange(0, done.len() as int) == done
        }),
    decreases n,
{
    if n == 0 || cur + n < r {
    } else {
        let d1 = done.push(r);
        assert(d1.drop_last() =~= done);
        lemma_feed(d1, 0, (n - (r - cur)) as nat, r);
        let (d2, c2) = feed(d1, 0, (n - (r - cur)) as nat, r);
        assert(d2.subrange(0, done.len() as int) =~= d2.subrange(0, d1.len() as int).subrange(
            0,
            done.len() as int,
        ));
        assert(d1.subrange(0, done.len() as int) =~= done);
    }
}

proof fn lemma_feed_all(batches: Seq<nat>, r: nat)
    requires
        r > 0,
    ensures
        ({
            let (done, cur) = feed_all(batches, r);
            &&& cur < r
            &&& forall|i: int| 0 <= i < done.len() ==> done[i] == r
            &&& sum(done) + cur == sum(batches)
        }),
    decreases batches.len(),
{
    if batches.len() > 0 {
        lemma_feed_all(batches.drop_last(), r);
        let (done, cur) = feed_all(batches.drop_last(), r);
        lemma_feed(done, cur, batches.last(), r);
    }
}

proof fn lemma_sum_push(s: Seq<nat>, x: nat)
    ensures
        sum(s.push(x)) == sum(s) + x,
{
    assert(s.push(x).drop_last() =~= s);
}

/// Rolling by rows: when batches of the given sizes are written with
/// `roll_by_rows = r`, every shard but possibly the last holds exactly `r`
/// rows, the last holds between 1 and `r`, and the shards hold all the
/// rows written.
pub proof fn lemma_rolling_rows(batches: Seq<nat>, r: nat)
    requires
        r > 0,
    ensures
        ({
            let (done, cur) = feed_all(batches, r);
            let shards = shard_sizes(done, cur);
            &&& forall|i: int| 0 <= i < shards.len() - 1 ==> shards[i] == r
            &&& forall|i: int| 0 <= i < shards.len() ==> 0 < #[trigger] shards[i] && shards[i] <= r
            &&& sum(shards) == sum(batches)
        }),
{
    lemma_feed_all(batches, r);
    let (done, cur) = feed_all(batches, r);
    if cur > 0 {
        lemma_sum_push(done, cur);
    }
}

/// Rows written to the open shard, and whether the shard closes after them.
#[derive(Debug, Clone, Copy, PartialEq, Eq, Structural)]
pub struct Piece {
    pub rows: u64,
    pub close_after: bool,
}

/// How a batch of `n` rows is cut when the open shard holds `cur` rows and
/// shards hold `r` rows.
pub open spec fn pieces_spec(cur: nat, n: nat, r: nat) -> Seq<Piece>
    decreases n,
{
    if n == 0 || r == 0 || cur >= r {
        if n == 0 {
            Seq::empty()
        } else {
            seq![Piece { rows: n as u64, close_after: false }]
        }
    } else if cur + n < r {
        seq![Piece { rows: n as u64, close_after: false }]
    } else {
        seq![Piece { rows: (r - cur) as u64, close_after: true }] + pieces_spec(
            0,
            (n - (r - cur)) as nat,
            r,
        )
    }
}

/// Where the output stands: the open shard's index, rows and bytes.
#[derive(Debug, Clone, Copy)]
pub struct Roller {
    pub roll_by_rows: Option<u64>,
    pub roll_by_bytes: Option<u64>,
    pub shard_index: u64,
    pub rows_in_shard: u64,
    pub bytes_in_shard: u64,
}

impl Roller {
    /// The open shard is below both limits.
    pub open spec fn wf(&self) -> bool {
        &&& match self.roll_by_rows {
            Some(r) => r > 0 && self.rows_in_shard < r,
            None => true,
        }
        &&& match self.roll_by_bytes {
            Some(b) => b > 0 && self.bytes_in_shard < b,
            None => true,
        }
    }

    /// A roller at the start of shard 0. A limit of 0 means no limit.
    pub fn new(roll_by_rows: Option<u64>, roll_by_bytes: Option<u64>) -> (r: Self)
        ensures
            r.wf(),
            r.shard_index == 0 && r.rows_in_shard == 0 && r.bytes_in_shard == 0,
            r.roll_by_rows == match roll_by_rows {
                Some(x) => if x > 0 {
                    Some(x)
                } else {
                    None
                },
                None => None,
            },
            r.roll_by_bytes == match roll_by_bytes {
                Some(x) => if x > 0 {
                    Some(x)
                } else {
                    None
                },
                None => None,
            },
    {
        let rows = match roll_by_rows {
            Some(x) => if x > 0 {
                Some(x)
            } else {
                None
            },
            None => None,
        };
        let bytes = match roll_by_bytes {
            Some(x) => if x > 0 {
                Some(x)
            } else {
                None
            },
            None => None,
        };
        Roller { roll_by_rows: rows, roll_by_bytes: bytes, shard_index: 0, rows_in_shard: 0, bytes_in_shard: 0 }
    }

    /// Cuts a batch of `n` rows into the pieces written to successive shards:
    /// the first fills the open shard, whole shards follow, and the rest
    /// stays open. Without a row limit the batch is one piece.
    pub fn plan_rows(&mut self, n: u64) -> (r: Vec<Piece>)
        requires
            old(self).wf(),
            old(self).shard_index + n <= u64::MAX,
        ensures
            final(self).wf(),
            final(self).roll_by_rows == old(self).roll_by_rows,
            final(self).roll_by_bytes == old(self).roll_by_bytes,
            match old(self).roll_by_rows {
                Some(lim) => {
                    let (d2, c2) = feed(Seq::empty(), old(self).rows_in_shard as nat, n as nat, lim as nat);
                    &&& r@ == pieces_spec(old(self).rows_in_shard as nat, n as nat, lim as nat)
                    &&& final(self).rows_in_shard == c2
                    &&& final(self).shard_index == old(self).shard_index + d2.len()
                    &&& d2.len() > 0 ==> final(self).bytes_in_shard == 0
                    &&& d2.len() == 0 ==> final(self).bytes_in_shard == old(self).bytes_in_shard
                },
                None => {
                    &&& r@ == pieces_spec(0, n as nat, 0)
                    &&& *final(self) == *old(self)
                },
            },
    {
        match self.roll_by_rows {
            None => {
                let mut v = Vec::new();
                if n > 0 {
                    v.push(Piece { rows: n, close_after: false });
                }
                assert(v@ =~= pieces_spec(0, n as nat, 0));
                v
            },
            Some(lim) => {
                let ghost cur0 = self.rows_in_shard as nat;
                let ghost start = self.shard_index;
                let ghost bytes0 = self.bytes_in_shard;
                let ghost rb = self.roll_by_bytes;
                let mut out: Vec<Piece> = Vec::new();
                let mut left = n;
                proof {
                    lemma_feed(Seq::empty(), cur0, n as nat, lim as nat);
                }
                while left > 0
                    invariant
                        self.roll_by_rows == Some(lim),
                        self.roll_by_bytes == rb,
                        rb == old(self).roll_by_bytes,
                        lim > 0,
                        self.rows_in_shard < lim,
                        match self.roll_by_bytes {
                            Some(b) => b > 0 && self.bytes_in_shard < b,
                            None => true,
                        },
                        left <= n,
                        self.shard_index + left <= start + n,
                        self.shard_index >= start,
                        self.shard_index > start ==> self.bytes_in_shard == 0,
                        self.shard_index == start ==> self.bytes_in_shard == bytes0,
                        start + n <= u64::MAX,
                        ({
                            let (dd, cc) = feed(Seq::empty(), cur0, n as nat, lim as nat);
                            let (dl, cl) = feed(Seq::empty(), self.rows_in_shard as nat, left as nat, lim as nat);
                            &&& cc == cl
                            &&& dd.len() == (self.shard_index - start) + dl.len()
                            &&& pieces_spec(cur0, n as nat, lim as nat) == out@ + pieces_spec(
                                self.rows_in_shard as nat,
                                left as nat,
                                lim as nat,
                            )
                        }),
                    decreases left,
                {
                    let room = lim - self.rows_in_shard;
                    if left < room {
                        out.push(Piece { rows: left, close_after: false });
                        self.rows_in_shard = self.rows_in_shard + left;
                        left = 0;
                    } else {
                        out.push(Piece { rows: room, close_after: true });
                        proof {
                            lemma_feed_len_shift(self.rows_in_shard as nat, left as nat, lim as nat);
                        }
                        left = left - room;
                        self.rows_in_shard = 0;
                        self.bytes_in_shard = 0;
                        self.shard_index = self.shard_index + 1;
                    }
                }
                assert(out@ =~= out@ + pieces_spec(self.rows_in_shard as nat, 0, lim as nat));
                out
            },
        }
    }

    /// Adds the bytes of a written batch; the open shard closes once it holds
    /// at least the byte limit. Gives the closed shard's size: at least the
    /// limit, and below the limit plus this batch.
    pub fn record_bytes(&mut self, bytes: u64) -> (r: Option<u64>)
        requires
            old(self).wf(),
            old(self).bytes_in_shard + bytes <= u64::MAX,
            old(self).shard_index < u64::MAX,
        ensures
            final(self).wf(),
            final(self).roll_by_rows == old(self).roll_by_rows,
            final(self).roll_by_bytes == old(self).roll_by_bytes,
            match old(self).roll_by_bytes {
                Some(b) => if old(self).bytes_in_shard + bytes >= b {
                    &&& r == Some((old(self).bytes_in_shard + bytes) as u64)
                    &&& b <= r->Some_0 < b + bytes
                    &&& final(self).shard_index == old(self).shard_index + 1
                    &&& final(self).bytes_in_shard == 0 && final(self).rows_in_shard == 0
                } else {
                    &&& r is None
                    &&& final(self).shard_index == old(self).shard_index
                    &&& final(self).bytes_in_shard == old(self).bytes_in_shard + bytes
                    &&& final(self).rows_in_shard == old(self).rows_in_shard
                },
                None => r is None && *final(self) == *old(self),
            },
    {
        match self.roll_by_bytes {
            None => None,
            Some(b) => {
                let total = self.bytes_in_shard + bytes;
                if total >= b {
                    self.shard_index = self.shard_index + 1;
                    self.bytes_in_shard = 0;
                    self.rows_in_shard = 0;
                    Some(total)
                } else {
                    self.bytes_in_shard = total;
                    None
                }
            },
        }
    }
}

proof fn lemma_feed_len_shift(cur: nat, n: nat, r: nat)
    requires
        r > 0,
        cur < r,
        cur + n >= r,
    ensures
        feed(Seq::empty(), cur, n, r).1 == feed(Seq::empty(), 0, (n - (r - cur)) as nat, r).1,
        feed(Seq::empty(), cur, n, r).0.len() == 1 + feed(Seq::empty(), 0, (n - (r - cur)) as nat, r).0.len(),
{
    lemma_feed_prefix(seq![r], 0, (n - (r - cur)) as nat, r);
    assert(Seq::<nat>::empty().push(r) =~= seq![r]);
}

/// Feeding after some closed shards only appends to them.
proof fn lemma_feed_prefix(done: Seq<nat>, cur: nat, n: nat, r: nat)
    ensures
        feed(done, cur, n, r).1 == feed(Seq::empty(), cur, n, r).1,
        feed(done, cur, n, r).0.len() == done.len() + feed(Seq::empty(), cur, n, r).0.len(),
    decreases n,
{
    if n == 0 || r == 0 || cur >= r || cur + n < r {
    } else {
        lemma_feed_prefix(done.push(r), 0, (n - (r - cur)) as nat, r);
        lemma_feed_prefix(Seq::empty().push(r), 0, (n - (r - cur)) as nat, r);
    }
}

pub open spec fn pad4(n: nat) -> Seq<char> {
    if n < 10 {
        seq!['0', '0', '0'] + crate::text::decimal(n)
    } else if n < 100 {
        seq!['0', '0'] + crate::text::decimal(n)
    } else if n < 1000 {
        seq!['0'] + crate::text::decimal(n)
    } else {
        crate::text::decimal(n)
    }
}

/// The file of shard `index` under the output prefix: `PATH.0000`,
/// `PATH.0001`, and so on.
pub fn shard_path(prefix: &str, index: u64) -> (r: String)
    ensures
        r@ == prefix@ + seq!['.'] + pad4(index as nat),
{
    let mut s = String::from_str(prefix);
    proof {
        reveal_strlit(".");
        reveal_strlit("0");
        reveal_strlit("00");
        reveal_strlit("000");
    }
    s.append(".");
    if index < 10 {
        s.append("000");
    } else if index < 100 {
        s.append("00");
    } else if index < 1000 {
        s.append("0");
    }
    s.append(crate::text::decimal_string(index).as_str());
    assert(s@ =~= prefix@ + seq!['.'] + pad4(index as nat));
    s
}

/// Rows over a run of pieces.
pub open spec fn pieces_rows(s: Seq<Piece>) -> nat
    decreases s.len(),
{
    if s.len() == 0 {
        0
    } else {
        s[0].rows as nat + pieces_rows(s.drop_first())
    }
}

/// Row conservation through rolling: the pieces of a batch hold exactly its
/// rows, so every aligned row is written once, whatever the shard limit.
pub proof fn lemma_pieces_conserve_rows(cur: nat, n: nat, r: nat)
    requires
        n <= u64::MAX,
    ensures
        pieces_rows(pieces_spec(cur, n, r)) == n,
    decreases n,
{
    let s = pieces_spec(cur, n, r);
    assert(pieces_rows(Seq::<Piece>::empty()) == 0);
    if n == 0 {
    } else if r == 0 || cur >= r || cur + n < r {
        assert(s.drop_first() =~= Seq::<Piece>::empty());
        assert(pieces_rows(s) == s[0].rows as nat + pieces_rows(s.drop_first()));
    } else {
        let rest = pieces_spec(0, (n - (r - cur)) as nat, r);
        lemma_pieces_conserve_rows(0, (n - (r - cur)) as nat, r);
        assert(s.drop_first() =~= rest);
        assert(pieces_rows(s) == s[0].rows as nat + pieces_rows(s.drop_first()));
    }
}

/// A roller follows `feed_all`: if its shard index and open rows are those
/// of `feed_all` over the batches written so far, then after `plan_rows` of
/// one more batch of `b` rows (whose contract moves them by `feed` of that
/// batch) they are those of `feed_all` with that batch added. From a fresh
/// roller, every call sequence therefore closes the shards that
/// `lemma_rolling_rows` describes.
pub proof fn lemma_roller_tracks_feed_all(batches: Seq<nat>, b: nat, r: nat)
    ensures
        ({
            let (done, cur) = feed_all(batches, r);
            let (closed, next) = feed(Seq::empty(), cur, b, r);
            let (done2, cur2) = feed_all(batches.push(b), r);
            &&& done2.len() == done.len() + closed.len()
            &&& cur2 == next
        }),
{
    assert(batches.push(b).drop_last() =~= batches);
    let (done, cur) = feed_all(batches, r);
    lemma_feed_prefix(done, cur, b, r);
}

} // verus!
