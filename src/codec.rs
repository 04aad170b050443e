use vstd::prelude::*;
use crate::calendar::{CivilDate, TimeOfDay};
use crate::store::{SessionRecord, Store, StoreError, well_formed};
use crate::text::{
    count_field,
    date_field,
    date_text,
    decimal_text,
    format_count,
    format_date,
    format_time,
    lemma_count_round_trip,
    lemma_date_round_trip,
    lemma_time_round_trip,
    parse_count,
    parse_date,
    parse_time,
    time_field,
    time_text,
};

verus! {

/// The bytes of each field of a row.
pub open spec fn fields_of(row: Seq<Vec<u8>>) -> Seq<Seq<u8>> {
    row.map_values(|f: Vec<u8>| f@)
}

/// The fields of each row.
pub open spec fn rows_view(rows: Seq<Vec<Vec<u8>>>) -> Seq<Seq<Seq<u8>>> {
    rows.map_values(|r: Vec<Vec<u8>>| fields_of(r@))
}

/// The first row of every store: the names of the four columns.
pub open spec fn header_row() -> Seq<Seq<u8>> {
    seq![
        seq![100u8, 97, 116, 101],
        seq![99u8, 108, 111, 99, 107, 95, 105, 110, 95, 116, 105, 109, 101],
        seq![99u8, 108, 111, 99, 107, 95, 111, 117, 116, 95, 116, 105, 109, 101],
        seq![101u8, 108, 97, 112, 115, 101, 100, 95, 115, 101, 99, 111, 110, 100, 115],
    ]
}

/// The row of a record; the last two fields are empty while it is open.
pub open spec fn record_row(r: SessionRecord) -> Seq<Seq<u8>> {
    seq![
        date_text(r.date),
        time_text(r.clock_in_time),
        match r.clock_out_time {
            Some(t) => time_text(t),
            None => Seq::empty(),
        },
        match r.elapsed_seconds {
            Some(e) => decimal_text(e as nat),
            None => Seq::empty(),
        },
    ]
}

/// What a row decodes to. A well-formed row has four fields, a date and a
/// clock-in time, then either two empty fields or a clock-out time and a
/// count of seconds. A date or time that does not read is an invalid
/// timestamp; any other fault makes the store corrupt.
pub open spec fn row_decoded(row: Seq<Seq<u8>>) -> Result<SessionRecord, StoreError> {
    if row.len() != 4 {
        Err(StoreError::CorruptStore)
    } else if date_field(row[0]) is None || time_field(row[1]) is None {
        Err(StoreError::InvalidTimestamp)
    } else if row[2].len() == 0 && row[3].len() == 0 {
        Ok(
            SessionRecord {
                date: date_field(row[0])->0,
                clock_in_time: time_field(row[1])->0,
                clock_out_time: None,
                elapsed_seconds: None,
            },
        )
    } else if time_field(row[2]) is None {
        Err(StoreError::InvalidTimestamp)
    } else if count_field(row[3]) is None {
        Err(StoreError::CorruptStore)
    } else {
        Ok(
            SessionRecord {
                date: date_field(row[0])->0,
                clock_in_time: time_field(row[1])->0,
                clock_out_time: Some(time_field(row[2])->0),
                elapsed_seconds: Some(count_field(row[3])->0),
            },
        )
    }
}

/// The records that the rows hold, or the fault of the first row that does
/// not decode.
pub open spec fn decoded_rows(rows: Seq<Seq<Seq<u8>>>) -> Result<Seq<SessionRecord>, StoreError>
    decreases rows.len(),
{
    if rows.len() == 0 {
        Ok(Seq::empty())
    } else {
        match decoded_rows(rows.drop_last()) {
            Ok(rs) => match row_decoded(rows.last()) {
                Ok(r) => Ok(rs.push(r)),
                Err(e) => Err(e),
            },
            Err(e) => Err(e),
        }
    }
}

/// The records of a stored file's rows: none for no rows; otherwise a
/// header, then rows that decode, of which only the last may be open. A
/// wrong header, or an open session followed by another row, makes the store
/// corrupt.
pub open spec fn store_of_rows(rows: Seq<Seq<Seq<u8>>>) -> Result<Seq<SessionRecord>, StoreError> {
    if rows.len() == 0 {
        Ok(Seq::empty())
    } else if rows[0] != header_row() {
        Err(StoreError::CorruptStore)
    } else {
        match decoded_rows(rows.skip(1)) {
            Ok(rs) => if well_formed(rs) {
                Ok(rs)
            } else {
                Err(StoreError::CorruptStore)
            },
            Err(e) => Err(e),
        }
    }
}

/// The rows that hold a store: the header, then one row per record.
pub open spec fn rows_of_store(s: Seq<SessionRecord>) -> Seq<Seq<Seq<u8>>> {
    seq![header_row()] + s.map_values(|r: SessionRecord| record_row(r))
}

fn header_fields() -> (r: Vec<Vec<u8>>)
    ensures
        fields_of(r@) == header_row(),
{
    let mut out: Vec<Vec<u8>> = Vec::new();
    out.push(vec![100u8, 97, 116, 101]);
    out.push(vec![99u8, 108, 111, 99, 107, 95, 105, 110, 95, 116, 105, 109, 101]);
    out.push(vec![99u8, 108, 111, 99, 107, 95, 111, 117, 116, 95, 116, 105, 109, 101]);
    out.push(vec![101u8, 108, 97, 112, 115, 101, 100, 95, 115, 101, 99, 111, 110, 100, 115]);
    assert(fields_of(out@) =~= header_row());
    out
}

fn bytes_equal(a: &Vec<u8>, b: &Vec<u8>) -> (r: bool)
    ensures
        r == (a@ == b@),
{
    if a.len() != b.len() {
        return false;
    }
    let mut i: usize = 0;
    while i < a.len()
        invariant
            a@.len() == b@.len(),
            i <= a@.len(),
            a@.take(i as int) == b@.take(i as int),
        decreases a@.len() - i,
    {
        if a[i] != b[i] {
            return false;
        }
        assert(a@.take(i + 1) =~= a@.take(i as int).push(a@[i as int]));
        assert(b@.take(i + 1) =~= b@.take(i as int).push(b@[i as int]));
        i = i + 1;
    }
    assert(a@.take(i as int) =~= a@);
    assert(b@.take(i as int) =~= b@);
    true
}

fn fields_equal(a: &Vec<Vec<u8>>, b: &Vec<Vec<u8>>) -> (r: bool)
    ensures
        r == (fields_of(a@) == fields_of(b@)),
{
    if a.len() != b.len() {
        return false;
    }
    let mut i: usize = 0;
    while i < a.len()
        invariant
            a@.len() == b@.len(),
            i <= a@.len(),
            forall|j: int| 0 <= j < i ==> a@[j]@ == b@[j]@,
        decreases a@.len() - i,
    {
        if !bytes_equal(&a[i], &b[i]) {
            assert(fields_of(a@)[i as int] != fields_of(b@)[i as int]);
            return false;
        }
        i = i + 1;
    }
    assert(fields_of(a@) =~= fields_of(b@));
    true
}

/// The row of a record.
pub fn encode_record(rec: &SessionRecord) -> (r: Vec<Vec<u8>>)
    requires
        rec.wf(),
    ensures
        fields_of(r@) == record_row(*rec),
{
    let mut out: Vec<Vec<u8>> = Vec::new();
    out.push(format_date(&rec.date));
    out.push(format_time(&rec.clock_in_time));
    match rec.clock_out_time {
        Some(t) => out.push(format_time(&t)),
        None => out.push(Vec::new()),
    }
    match rec.elapsed_seconds {
        Some(e) => out.push(format_count(e)),
        None => out.push(Vec::new()),
    }
    assert(fields_of(out@) =~= record_row(*rec));
    out
}

/// The record that a row holds, or why it cannot be read.
pub fn decode_record(row: &Vec<Vec<u8>>) -> (r: Result<SessionRecord, StoreError>)
    ensures
        r == row_decoded(fields_of(row@)),
        r matches Ok(rec) ==> rec.wf(),
{
    let ghost f = fields_of(row@);
    if row.len() != 4 {
        return Err(StoreError::CorruptStore);
    }
    assert(f[0] == row@[0]@ && f[1] == row@[1]@ && f[2] == row@[2]@ && f[3] == row@[3]@);
    let date = match parse_date(&row[0]) {
        Some(d) => d,
        None => {
            return Err(StoreError::InvalidTimestamp);
        },
    };
    let clock_in_time = match parse_time(&row[1]) {
        Some(t) => t,
        None => {
            return Err(StoreError::InvalidTimestamp);
        },
    };
    if row[2].len() == 0 && row[3].len() == 0 {
        return Ok(SessionRecord { date, clock_in_time, clock_out_time: None, elapsed_seconds: None });
    }
    let out = match parse_time(&row[2]) {
        Some(t) => t,
        None => {
            return Err(StoreError::InvalidTimestamp);
        },
    };
    let elapsed = match parse_count(&row[3]) {
        Some(e) => e,
        None => {
            return Err(StoreError::CorruptStore);
        },
    };
    Ok(
        SessionRecord {
            date,
            clock_in_time,
            clock_out_time: Some(out),
            elapsed_seconds: Some(elapsed),
        },
    )
}

/// An error in a prefix of the rows is the error of all of them.
proof fn lemma_decoded_prefix_error(rows: Seq<Seq<Seq<u8>>>, i: int)
    requires
        0 < i <= rows.len(),
        decoded_rows(rows.take(i)) is Err,
    ensures
        decoded_rows(rows) == decoded_rows(rows.take(i)),
    decreases rows.len(),
{
    if i < rows.len() {
        assert(rows.drop_last().take(i) =~= rows.take(i));
        lemma_decoded_prefix_error(rows.drop_last(), i);
    } else {
        assert(rows.take(i) =~= rows);
    }
}

impl Store {
    /// Reads a store from its rows; no rows at all make an empty store. The
    /// error is that of the first row that does not decode, else
    /// `CorruptStore` for a wrong header or an open session that is not last.
    pub fn from_rows(rows: &Vec<Vec<Vec<u8>>>) -> (r: Result<Store, StoreError>)
        ensures
            store_of_rows(rows_view(rows@)) matches Ok(s) ==> r is Ok && r->Ok_0@ == s
                && r->Ok_0.wf(),
            store_of_rows(rows_view(rows@)) matches Err(e) ==> r is Err && r->Err_0 == e,
    {
        let ghost rv = rows_view(rows@);
        let mut store = Store::new();
        let n = rows.len();
        if n == 0 {
            assert(store@ =~= Seq::<SessionRecord>::empty());
            return Ok(store);
        }
        let header = header_fields();
        if !fields_equal(&rows[0], &header) {
            assert(rv[0] == fields_of(rows@[0]@));
            return Err(StoreError::CorruptStore);
        }
        assert(rv[0] == header_row());
        let ghost body = rv.skip(1);
        let mut records: Vec<SessionRecord> = Vec::new();
        let mut i: usize = 1;
        while i < n
            invariant
                n == rows@.len(),
                rv == rows_view(rows@),
                body == rv.skip(1),
                rv[0] == header_row(),
                1 <= i <= n,
                decoded_rows(body.take(i - 1)) == Ok::<Seq<SessionRecord>, StoreError>(
                    records@,
                ),
                forall|k: int| 0 <= k < records@.len() ==> (#[trigger] records@[k]).wf(),
            decreases n - i,
        {
            assert(body[i - 1] == fields_of(rows@[i as int]@));
            assert(body.take(i as int).drop_last() =~= body.take(i - 1));
            assert(body.take(i as int).last() == body[i - 1]);
            match decode_record(&rows[i]) {
                Ok(rec) => records.push(rec),
                Err(e) => {
                    proof {
                        lemma_decoded_prefix_error(body, i as int);
                    }
                    return Err(e);
                },
            }
            i = i + 1;
        }
        assert(body.take(n - 1) =~= body);
        let m = records.len();
        let mut k: usize = 0;
        while k < m
            invariant
                m == records@.len(),
                n == rows@.len(),
                n > 0,
                rv == rows_view(rows@),
                body == rv.skip(1),
                rv[0] == header_row(),
                decoded_rows(body) == Ok::<Seq<SessionRecord>, StoreError>(records@),
                k <= m,
                store.wf(),
                store@ =~= records@.take(k as int),
                forall|j: int| 0 <= j < records@.len() ==> (#[trigger] records@[j]).wf(),
            decreases m - k,
        {
            let ghost before = store@;
            match store.append(records[k]) {
                Ok(()) => {},
                Err(e) => {
                    proof {
                        assert(records@[k - 1] == before[k - 1]);
                        assert(!well_formed(records@));
                    }
                    return Err(StoreError::CorruptStore);
                },
            }
            assert(records@.take(k + 1) =~= records@.take(k as int).push(records@[k as int]));
            k = k + 1;
        }
        assert(records@.take(k as int) =~= records@);
        Ok(store)
    }

    /// The rows that hold the store: the header, then one row per record.
    pub fn to_rows(&self) -> (r: Vec<Vec<Vec<u8>>>)
        requires
            self.wf(),
        ensures
            rows_view(r@) == rows_of_store(self@),
    {
        let mut out: Vec<Vec<Vec<u8>>> = Vec::new();
        out.push(header_fields());
        let n = self.len();
        let mut i: usize = 0;
        while i < n
            invariant
                n == self@.len(),
                i <= n,
                self.wf(),
                rows_view(out@) =~= rows_of_store(self@.take(i as int)),
            decreases n - i,
        {
            let rec = self.record(i);
            let row = encode_record(&rec);
            let ghost prev = out@;
            out.push(row);
            assert(self@.take(i + 1) =~= self@.take(i as int).push(rec));
            assert(rows_view(out@) =~= rows_view(prev).push(record_row(rec)));
            assert(rows_of_store(self@.take(i + 1)) =~= rows_of_store(self@.take(i as int)).push(
                record_row(rec),
            ));
            i = i + 1;
        }
        assert(self@.take(i as int) =~= self@);
        out
    }
}

/// A record written as a row reads back as the same record.
pub proof fn lemma_record_round_trip(r: SessionRecord)
    requires
        r.wf(),
    ensures
        row_decoded(record_row(r)) == Ok::<SessionRecord, StoreError>(r),
{
    let row = record_row(r);
    lemma_date_round_trip(r.date);
    lemma_time_round_trip(r.clock_in_time);
    match r.clock_out_time {
        Some(t) => {
            lemma_time_round_trip(t);
            lemma_count_round_trip(r.elapsed_seconds->0);
            assert(row[2].len() == 8);
        },
        None => {},
    }
}

proof fn lemma_records_round_trip(s: Seq<SessionRecord>)
    requires
        forall|i: int| 0 <= i < s.len() ==> (#[trigger] s[i]).wf(),
    ensures
        decoded_rows(s.map_values(|r: SessionRecord| record_row(r))) == Ok::<
            Seq<SessionRecord>,
            StoreError,
        >(s),
    decreases s.len(),
{
    if s.len() > 0 {
        let rows = s.map_values(|r: SessionRecord| record_row(r));
        assert(rows.drop_last() =~= s.drop_last().map_values(|r: SessionRecord| record_row(r)));
        assert forall|i: int| 0 <= i < s.drop_last().len() implies (
        #[trigger] s.drop_last()[i]).wf() by {
            assert(s.drop_last()[i] == s[i]);
        }
        lemma_records_round_trip(s.drop_last());
        assert(s.last() == s[s.len() - 1]);
        lemma_record_round_trip(s.last());
        assert(rows.last() == record_row(s.last()));
        assert(s.drop_last().push(s.last()) =~= s);
    } else {
        assert(s =~= Seq::<SessionRecord>::empty());
    }
}

/// A well-formed store written as rows reads back as the same records.
pub proof fn lemma_store_round_trip(s: Seq<SessionRecord>)
    requires
        well_formed(s),
    ensures
        store_of_rows(rows_of_store(s)) == Ok::<Seq<SessionRecord>, StoreError>(s),
{
    let rows = rows_of_store(s);
    assert(rows.skip(1) =~= s.map_values(|r: SessionRecord| record_row(r)));
    lemma_records_round_trip(s);
}

} // verus!
