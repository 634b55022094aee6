use vstd::prelude::*;
use crate::candle::{dense_from, entries_view, Bar, Candle, CandleEntry, CandleKey, Slot};
use crate::decimal::{Dec, Decimal};
use crate::market::{lemma_symbol_text_round_trip, Symbol, SymbolId};
use crate::time::{Duration, Time, MILLIS_PER_SECOND};

verus! {

/// How many candles one request asks for at most.
pub const PREFETCH: usize = 5000;

/// How many rows one insert statement carries at most.
pub const CHUNK_SIZE: usize = 100;

/// A row of the candle table does not hold what the store writes there.
#[derive(Debug, Clone, Copy, PartialEq, Eq, Structural)]
pub struct CorruptRow {
    /// The index of the row in what was read.
    pub index: usize,
}

/// One row of the candle table: the market's text, the start of the
/// interval and its length in seconds, and the close and the volume as
/// sixteen bytes each, both absent where the venue had no candle.
#[derive(Debug)]
pub struct Row {
    pub market: String,
    pub timestamp: i64,
    pub interval: i64,
    pub close: Option<Vec<u8>>,
    pub volume: Option<Vec<u8>>,
}

/// The mathematical content of a row.
pub struct RowView {
    pub market: Seq<char>,
    pub timestamp: i64,
    pub interval: i64,
    pub close: Option<Seq<u8>>,
    pub volume: Option<Seq<u8>>,
}

pub open spec fn bytes_model(b: Option<Vec<u8>>) -> Option<Seq<u8>> {
    match b {
        Some(b) => Some(b@),
        None => None,
    }
}

impl View for Row {
    type V = RowView;

    open spec fn view(&self) -> RowView {
        RowView {
            market: self.market@,
            timestamp: self.timestamp,
            interval: self.interval,
            close: bytes_model(self.close),
            volume: bytes_model(self.volume),
        }
    }
}

/// The decimal that a blob of the table stands for, if it has sixteen bytes.
pub open spec fn blob_decimal(blob: Seq<u8>) -> Option<Dec> {
    if blob.len() == 16 {
        Some(Dec::from_bytes(blob))
    } else {
        None
    }
}

impl RowView {
    /// The key that the row is stored under, if its market and its numbers can be read.
    pub open spec fn key(self) -> Option<Slot> {
        match (
            SymbolId::parse(self.market),
            Time::of(self.timestamp * MILLIS_PER_SECOND),
            Duration::of(self.interval * MILLIS_PER_SECOND),
        ) {
            (Some(market), Some(time), Some(interval)) => Some(Slot { market, time, interval }),
            _ => None,
        }
    }

    /// The candle of the row: none where both blobs are absent.
    pub open spec fn candle(self) -> Option<Option<Bar>> {
        match (self.close, self.volume) {
            (Some(close), Some(volume)) => match (blob_decimal(close), blob_decimal(volume)) {
                (Some(close), Some(volume)) => Some(Some(Bar { close, volume })),
                _ => None,
            },
            (None, None) => Some(None),
            _ => None,
        }
    }

    /// The entry that the row stands for, if it holds what the store writes.
    pub open spec fn entry(self) -> Option<(Slot, Option<Bar>)> {
        match (self.key(), self.candle()) {
            (Some(key), Some(candle)) => Some((key, candle)),
            _ => None,
        }
    }
}

/// How far the reading of rows has come.
pub struct Reading {
    pub out: Seq<(Slot, Option<Bar>)>,
    /// The key that the next row must have.
    pub next: Option<Slot>,
    /// A row with another key was met: the rest is left out.
    pub stopped: bool,
}

/// What the first `n` rows give: the entries up to the first row whose key is not the one expected.
pub open spec fn read_rows(key: Slot, rows: Seq<RowView>, n: nat) -> Result<Reading, CorruptRow>
    decreases n,
{
    if n == 0 {
        Ok(Reading { out: Seq::empty(), next: Some(key), stopped: false })
    } else {
        match read_rows(key, rows, (n - 1) as nat) {
            Err(e) => Err(e),
            Ok(r) => if r.stopped {
                Ok(r)
            } else {
                match rows[n - 1].entry() {
                    None => Err(CorruptRow { index: (n - 1) as usize }),
                    Some(entry) => if Some(entry.0) != r.next {
                        Ok(Reading { stopped: true, ..r })
                    } else {
                        Ok(Reading { out: r.out.push(entry), next: entry.0.step(1), stopped: false })
                    },
                }
            },
        }
    }
}

/// The content of a list of rows.
pub open spec fn rows_view(rows: Seq<Row>) -> Seq<RowView> {
    Seq::new(rows.len(), |i: int| rows[i]@)
}

/// The decimal of a blob, if the blob has sixteen bytes.
pub fn blob_to_dec(blob: &Vec<u8>) -> (r: Option<Decimal>)
    ensures
        Decimal::model(r) == blob_decimal(blob@),
{
    if blob.len() != 16 {
        return None;
    }
    let mut buf: [u8; 16] = [0u8; 16];
    let mut i: usize = 0;
    while i < 16
        invariant
            i <= 16,
            blob@.len() == 16,
            forall|j: int| 0 <= j < i ==> buf@[j] == blob@[j],
        decreases 16 - i,
    {
        buf[i] = blob[i];
        i = i + 1;
    }
    assert(buf@ =~= blob@);
    Some(Decimal::deserialize(buf))
}

/// The sixteen bytes that stand for a decimal in the table; they read back as the same decimal.
pub fn dec_to_blob(decimal: Decimal) -> (r: Vec<u8>)
    ensures
        r@ == decimal@.bytes(),
        r@.len() == 16,
        blob_decimal(r@) == Some(decimal@),
{
    let bytes = decimal.serialize();
    let mut out: Vec<u8> = Vec::new();
    let mut i: usize = 0;
    while i < 16
        invariant
            i <= 16,
            out@.len() == i,
            forall|j: int| 0 <= j < i ==> out@[j] == bytes@[j],
        decreases 16 - i,
    {
        out.push(bytes[i]);
        i = i + 1;
    }
    assert(out@ =~= bytes@);
    out
}

/// The row that an entry is stored as.
pub fn to_row(key: &CandleKey, candle: &Option<Candle>) -> (r: Row)
    ensures
        r@.market == key@.market.text(),
        r@.timestamp == key.time.spec_timestamp(),
        r@.interval == key.interval.spec_num_seconds(),
        r@.candle() == Some(Candle::model(*candle)),
{
    let (close, volume) = match candle {
        Some(c) => (Some(dec_to_blob(c.close)), Some(dec_to_blob(c.volume))),
        None => (None, None),
    };
    Row {
        market: key.market.to_string(),
        timestamp: key.time.timestamp(),
        interval: key.interval.num_seconds(),
        close,
        volume,
    }
}

/// The entry that a row stands for, if the row holds what the store writes.
pub fn from_row(row: &Row) -> (r: Option<CandleEntry>)
    ensures
        match r {
            Some(e) => row@.entry() == Some((e.0@, Candle::model(e.1))),
            None => row@.entry().is_none(),
        },
{
    let market = match Symbol::new(row.market.as_str()) {
        Some(m) => m,
        None => {
            return None;
        },
    };
    let time = match Time::from_timestamp(row.timestamp) {
        Some(t) => t,
        None => {
            return None;
        },
    };
    let interval = match Duration::seconds(row.interval) {
        Some(d) => d,
        None => {
            return None;
        },
    };
    let candle = match (&row.close, &row.volume) {
        (Some(close), Some(volume)) => match (blob_to_dec(close), blob_to_dec(volume)) {
            (Some(close), Some(volume)) => Some(Candle { close, volume }),
            _ => {
                return None;
            },
        },
        (None, None) => None,
        _ => {
            return None;
        },
    };
    Some((CandleKey { market, time, interval }, candle))
}

/// The candles that the rows give for `key`: the rows must come in the
/// order of their instants; the candles are taken up to the first row that
/// is not the one expected, so that what is returned has no gap from `key` on.
pub fn contiguous_prefix(key: &CandleKey, rows: &Vec<Row>) -> (r: Result<Vec<CandleEntry>, CorruptRow>)
    ensures
        match read_rows(key@, rows_view(rows@), rows@.len()) {
            Ok(reading) => r.is_ok() && entries_view(r.unwrap()@) == reading.out,
            Err(e) => r == Err::<Vec<CandleEntry>, CorruptRow>(e),
        },
{
    let ghost all = rows_view(rows@);
    let mut out: Vec<CandleEntry> = Vec::new();
    let mut next: Option<CandleKey> = Some(key.clone());
    let mut i: usize = 0;
    assert(entries_view(out@) =~= Seq::<(Slot, Option<Bar>)>::empty());
    while i < rows.len()
        invariant
            i <= rows@.len(),
            all == rows_view(rows@),
            Ok::<Reading, CorruptRow>(
                Reading {
                    out: entries_view(out@),
                    next: match next {
                        Some(k) => Some(k@),
                        None => None,
                    },
                    stopped: false,
                },
            ) == read_rows(key@, all, i as nat),
        decreases rows@.len() - i,
    {
        assert(all[i as int] == rows@[i as int]@);
        let entry = match from_row(&rows[i]) {
            Some(e) => e,
            None => {
                proof {
                    lemma_read_rows_stays(key@, all, i as nat + 1, all.len());
                }
                return Err(CorruptRow { index: i });
            },
        };
        let expected = match &next {
            Some(k) => k.same(&entry.0),
            None => false,
        };
        if !expected {
            proof {
                lemma_read_rows_stays(key@, all, i as nat + 1, all.len());
            }
            return Ok(out);
        }
        next = entry.0.next();
        let ghost before = entries_view(out@);
        out.push(entry);
        assert(entries_view(out@) =~= before.push((entry.0@, Candle::model(entry.1))));
        i = i + 1;
    }
    Ok(out)
}

/// Once the reading has stopped or failed, further rows change nothing.
pub proof fn lemma_read_rows_stays(key: Slot, rows: Seq<RowView>, n: nat, m: nat)
    requires
        n <= m,
        match read_rows(key, rows, n) {
            Ok(r) => r.stopped,
            Err(_) => true,
        },
    ensures
        read_rows(key, rows, m) == read_rows(key, rows, n),
    decreases m - n,
{
    if n < m {
        lemma_read_rows_stays(key, rows, n + 1, m);
    }
}

/// What is read from the store for a key is dense in time from that key
/// on: the reading stops at the first row that is not the one expected.
pub proof fn lemma_read_rows_is_dense(key: Slot, rows: Seq<RowView>, n: nat)
    requires
        read_rows(key, rows, n).is_ok(),
    ensures
        dense_from(key, read_rows(key, rows, n).unwrap().out),
        read_rows(key, rows, n).unwrap().next matches Some(next) ==> next.market == key.market
            && next.interval == key.interval && next.time.millis == key.time.millis + read_rows(
            key,
            rows,
            n,
        ).unwrap().out.len() * key.interval.millis,
    decreases n,
{
    if n > 0 {
        lemma_read_rows_is_dense(key, rows, (n - 1) as nat);
        let r = read_rows(key, rows, (n - 1) as nat).unwrap();
        if !r.stopped {
            let entry = rows[n - 1].entry().unwrap();
            if Some(entry.0) == r.next {
                let out = r.out.push(entry);
                let len = r.out.len() as int;
                let iv = key.interval.millis as int;
                assert((len + 1) * iv == len * iv + iv) by (nonlinear_arith);
                assert forall|i: int| 0 <= i < out.len() implies (#[trigger] out[i]).0.market
                    == key.market && out[i].0.interval == key.interval && out[i].0.time.millis
                    == key.time.millis + i * iv by {
                    if i < len {
                        assert(out[i] == r.out[i]);
                    }
                }
            }
        }
    }
}

/// The row written for a key is read as that key, if the key is of whole
/// seconds and the underlying of its market has no hyphen: what the
/// table cannot hold is a fraction of a second or a name that reads as two.
pub proof fn lemma_row_key_round_trip(row: RowView, key: Slot)
    requires
        row.market == key.market.text(),
        row.timestamp == key.time.spec_timestamp(),
        row.interval == key.interval.spec_num_seconds(),
        key.time.millis % 1000 == 0,
        key.interval.millis % 1000 == 0,
        key.market matches SymbolId::Perp(underlying) && !underlying.contains('-'),
    ensures
        row.key() == Some(key),
{
    lemma_symbol_text_round_trip(key.market);
    assert(row.timestamp * MILLIS_PER_SECOND == key.time.millis);
    assert(row.interval * MILLIS_PER_SECOND == key.interval.millis);
}

/// What was stored is read back: rows that stand for a sequence of
/// entries without a gap from `key` on give that very sequence.
pub proof fn lemma_read_back(key: Slot, rows: Seq<RowView>, entries: Seq<(Slot, Option<Bar>)>, n: nat)
    requires
        n <= rows.len(),
        rows.len() == entries.len(),
        forall|i: int| 0 <= i < rows.len() ==> (#[trigger] rows[i]).entry() == Some(entries[i]),
        entries.len() > 0 ==> entries[0].0 == key,
        forall|i: int|
            0 <= i < entries.len() - 1 ==> (#[trigger] entries[i]).0.step(1) == Some(
                entries[i + 1].0,
            ),
    ensures
        read_rows(key, rows, n) == Ok::<Reading, CorruptRow>(
            Reading {
                out: entries.take(n as int),
                next: if n == 0 {
                    Some(key)
                } else {
                    entries[n - 1].0.step(1)
                },
                stopped: false,
            },
        ),
    decreases n,
{
    if n == 0 {
        assert(entries.take(0) =~= Seq::<(Slot, Option<Bar>)>::empty());
    } else {
        lemma_read_back(key, rows, entries, (n - 1) as nat);
        assert(rows[n - 1].entry() == Some(entries[n - 1]));
        if n - 1 > 0 {
            assert(entries[n - 2].0.step(1) == Some(entries[n - 1].0));
        }
        assert(entries.take(n as int) =~= entries.take(n - 1).push(entries[n - 1]));
    }
}

/// How many insert statements `len` rows take.
pub open spec fn chunk_count(len: nat) -> nat {
    len / CHUNK_SIZE as nat + if len % CHUNK_SIZE as nat != 0 {
        1nat
    } else {
        0nat
    }
}

/// Where the chunks of `len` rows begin and end: chunks of `CHUNK_SIZE` rows, the last one shorter.
pub open spec fn chunks(len: nat) -> Seq<(usize, usize)> {
    Seq::new(
        chunk_count(len),
        |i: int|
            (
                (i * CHUNK_SIZE) as usize,
                if (i + 1) * CHUNK_SIZE <= len {
                    ((i + 1) * CHUNK_SIZE) as usize
                } else {
                    len as usize
                },
            ),
    )
}

/// The ranges of rows that go into one insert statement each.
pub fn chunk_bounds(len: usize) -> (r: Vec<(usize, usize)>)
    ensures
        r@ == chunks(len as nat),
{
    let count: usize = len / CHUNK_SIZE + if len % CHUNK_SIZE != 0 {
        1
    } else {
        0
    };
    let mut out: Vec<(usize, usize)> = Vec::new();
    let mut k: usize = 0;
    while k < count
        invariant
            k <= count,
            count == chunk_count(len as nat),
            out@.len() == k,
            forall|i: int| 0 <= i < k ==> out@[i] == chunks(len as nat)[i],
        decreases count - k,
    {
        let start: usize = k * CHUNK_SIZE;
        let end: usize = if len - start >= CHUNK_SIZE {
            start + CHUNK_SIZE
        } else {
            len
        };
        out.push((start, end));
        k = k + 1;
    }
    assert(out@ =~= chunks(len as nat));
    out
}

/// The decimal digit `d` as text.
pub open spec fn digit_text(d: nat) -> Seq<char> {
    if d == 0 {
        "0"@
    } else if d == 1 {
        "1"@
    } else if d == 2 {
        "2"@
    } else if d == 3 {
        "3"@
    } else if d == 4 {
        "4"@
    } else if d == 5 {
        "5"@
    } else if d == 6 {
        "6"@
    } else if d == 7 {
        "7"@
    } else if d == 8 {
        "8"@
    } else {
        "9"@
    }
}

/// The number `n` in decimal digits.
pub open spec fn number_text(n: nat) -> Seq<char>
    decreases n,
{
    if n < 10 {
        digit_text(n)
    } else {
        number_text(n / 10) + digit_text(n % 10)
    }
}

/// The five numbered parameters of the row `i` of a statement, in brackets.
pub open spec fn row_text(i: nat) -> Seq<char> {
    "($"@ + number_text(5 * i + 1) + ",$"@ + number_text(5 * i + 2) + ",$"@ + number_text(
        5 * i + 3,
    ) + ",$"@ + number_text(5 * i + 4) + ",$"@ + number_text(5 * i + 5) + ")"@
}

/// The parameters of `n` rows, separated by commas.
pub open spec fn rows_text(n: nat) -> Seq<char>
    decreases n,
{
    if n == 0 {
        Seq::empty()
    } else if n == 1 {
        row_text(0)
    } else {
        rows_text((n - 1) as nat) + ","@ + row_text((n - 1) as nat)
    }
}

/// The statement that inserts `n` rows at once, leaving rows that are already stored as they are.
pub open spec fn insert_text(n: nat) -> Seq<char> {
    "INSERT OR IGNORE INTO data (market, timestamp, close, volume, interval) VALUES "@
        + rows_text(n)
}

fn digit(d: usize) -> (r: &'static str)
    requires
        d < 10,
    ensures
        r@ == digit_text(d as nat),
{
    if d == 0 {
        "0"
    } else if d == 1 {
        "1"
    } else if d == 2 {
        "2"
    } else if d == 3 {
        "3"
    } else if d == 4 {
        "4"
    } else if d == 5 {
        "5"
    } else if d == 6 {
        "6"
    } else if d == 7 {
        "7"
    } else if d == 8 {
        "8"
    } else {
        "9"
    }
}

fn number(n: usize) -> (r: String)
    ensures
        r@ == number_text(n as nat),
    decreases n,
{
    if n < 10 {
        digit(n).to_owned()
    } else {
        let mut s = number(n / 10);
        s.append(digit(n % 10));
        s
    }
}

fn append_row(s: &mut String, i: usize)
    requires
        i < CHUNK_SIZE,
    ensures
        final(s)@ == old(s)@ + row_text(i as nat),
{
    let ghost start = s@;
    s.append("($");
    s.append(number(5 * i + 1).as_str());
    s.append(",$");
    s.append(number(5 * i + 2).as_str());
    s.append(",$");
    s.append(number(5 * i + 3).as_str());
    s.append(",$");
    s.append(number(5 * i + 4).as_str());
    s.append(",$");
    s.append(number(5 * i + 5).as_str());
    s.append(")");
    assert(s@ =~= start + row_text(i as nat));
}

/// The statement that inserts `n` rows at once: the parameters of the
/// row `i` are numbered from `5 i + 1` on, in the order market,
/// timestamp, close, volume, interval.
pub fn insert_statement(n: usize) -> (r: String)
    requires
        n <= CHUNK_SIZE,
    ensures
        r@ == insert_text(n as nat),
{
    let mut s =
        "INSERT OR IGNORE INTO data (market, timestamp, close, volume, interval) VALUES ".to_owned();
    let ghost head = s@;
    let mut i: usize = 0;
    assert(s@ =~= head + rows_text(0));
    while i < n
        invariant
            i <= n,
            n <= CHUNK_SIZE,
            s@ == head + rows_text(i as nat),
        decreases n - i,
    {
        let ghost before = s@;
        if i > 0 {
            s.append(",");
        }
        append_row(&mut s, i);
        assert(s@ =~= head + rows_text((i + 1) as nat));
        i = i + 1;
    }
    s
}

} // verus!
