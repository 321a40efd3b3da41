//! The undo log.
use vstd::prelude::*;
use vstd::slice::slice_subrange;
use vstd::utf8::*;

use crate::encoding;
use crate::encoding::{encode, SourceEncoding};
use crate::error;
use crate::lines;
use crate::lines::split_lines;
use crate::offsets::text_len;
use crate::script;
use crate::script::trimmed_chars;
use crate::strings;
use crate::strings::{owned, to_decimal, u64_to_decimal};

verus! {

/// What is needed to reverse an operation on one text.
#[derive(Debug, Clone, PartialEq, Eq)]
pub struct UndoEntry {
    /// The full original text before the operation.
    pub original_text: String,
}

/// A record in the persistent undo log.
#[derive(Debug, Clone, PartialEq, Eq)]
pub struct UndoRecord {
    /// Seconds since the Unix epoch, in decimal.
    pub timestamp: String,
    pub file_path: String,
    pub entry: UndoEntry,
    /// Tag of the encoding that the file was read in; `None` means plain
    /// UTF-8. Restoring encodes the original text with it, so that undo is
    /// exact to the byte.
    pub encoding: Option<String>,
}

/// What an [`UndoRecord`] holds.
#[verifier::ext_equal]
pub struct RecordView {
    pub timestamp: Seq<char>,
    pub file_path: Seq<char>,
    pub original_text: Seq<char>,
    pub encoding: Option<Seq<char>>,
}

impl View for UndoRecord {
    type V = RecordView;

    open spec fn view(&self) -> RecordView {
        RecordView {
            timestamp: self.timestamp@,
            file_path: self.file_path@,
            original_text: self.entry.original_text@,
            encoding: error::opt_view(self.encoding),
        }
    }
}

/// The undo log: records, oldest first, and how many of them are kept.
pub struct UndoLog {
    records: Vec<UndoRecord>,
    max_entries: usize,
}

/// The newest `max` of a list of records.
pub open spec fn newest<A>(records: Seq<A>, max: int) -> Seq<A> {
    if records.len() > max {
        records.skip(records.len() - max)
    } else {
        records
    }
}

/// What a list of records holds.
pub open spec fn record_views(records: Seq<UndoRecord>) -> Seq<RecordView> {
    Seq::new(records.len(), |i: int| records[i]@)
}

/// What an [`UndoLog`] holds.
#[verifier::ext_equal]
pub struct LogView {
    pub records: Seq<RecordView>,
    pub max_entries: int,
}

impl View for UndoLog {
    type V = LogView;

    open spec fn view(&self) -> LogView {
        LogView { records: record_views(self.records()), max_entries: self.max_entries() }
    }
}

/// A log with another record.
pub open spec fn logged(log: LogView, record: RecordView) -> LogView {
    LogView { records: newest(log.records.push(record), log.max_entries), ..log }
}

impl UndoLog {
    /// The records, oldest first.
    pub closed spec fn records(self) -> Seq<UndoRecord> {
        self.records@
    }

    /// How many records are kept.
    pub closed spec fn max_entries(self) -> int {
        self.max_entries as int
    }

    /// An empty log.
    pub fn new(max_entries: usize) -> (log: UndoLog)
        ensures
            log.records() == Seq::<UndoRecord>::empty(),
            log.max_entries() == max_entries,
    {
        UndoLog { records: Vec::new(), max_entries }
    }

    /// A log that holds records which were read back, oldest first. Records
    /// over the limit are kept until the next one is pushed.
    pub fn from_records(records: Vec<UndoRecord>, max_entries: usize) -> (log: UndoLog)
        ensures
            log.records() == records@,
            log.max_entries() == max_entries,
    {
        UndoLog { records, max_entries }
    }

    /// The records, oldest first.
    pub fn all(&self) -> (r: &[UndoRecord])
        ensures
            r@ == self.records(),
    {
        self.records.as_slice()
    }

    /// Appends a record; the oldest ones over the limit go.
    pub fn push(&mut self, record: UndoRecord)
        ensures
            final(self).records() == newest(
                old(self).records().push(record),
                old(self).max_entries(),
            ),
            final(self).max_entries() == old(self).max_entries(),
    {
        self.records.push(record);
        self.prune();
    }

    /// Removes the last `count` records and returns them, newest first.
    pub fn pop(&mut self, count: usize) -> (r: Vec<UndoRecord>)
        ensures
            ({
                let all = old(self).records();
                let n = if count < all.len() {
                    count as int
                } else {
                    all.len() as int
                };
                &&& r@ == all.skip(all.len() - n).reverse()
                &&& final(self).records() == all.take(all.len() - n)
                &&& final(self).max_entries() == old(self).max_entries()
            }),
    {
        let ghost all = self.records@;
        let n: usize = if count < self.records.len() {
            count
        } else {
            self.records.len()
        };
        let mut out: Vec<UndoRecord> = Vec::new();
        let mut i: usize = 0;
        proof {
            assert(all.take(all.len() as int) =~= all);
        }
        while i < n
            invariant
                i <= n <= all.len(),
                self.records@ == all.take(all.len() - i),
                self.max_entries == old(self).max_entries,
                out@.len() == i,
                forall|k: int| #![trigger out@[k]]
                    0 <= k < i ==> out@[k] == all[all.len() - 1 - k],
            decreases n - i,
        {
            let ghost before = self.records@;
            match self.records.pop() {
                Some(record) => {
                    out.push(record);
                },
                None => {},
            }
            i += 1;
            proof {
                assert(self.records@ =~= all.take(all.len() - i));
            }
        }
        proof {
            assert(out@ =~= all.skip(all.len() - n).reverse());
        }
        out
    }

    /// How many records there are.
    pub fn len(&self) -> (n: usize)
        ensures
            n == self.records().len(),
    {
        self.records.len()
    }

    /// Whether there are no records.
    pub fn is_empty(&self) -> (b: bool)
        ensures
            b == (self.records().len() == 0),
    {
        self.records.len() == 0
    }

    /// The newest `count` records, oldest of them first.
    pub fn recent(&self, count: usize) -> (r: &[UndoRecord])
        ensures
            r@ == newest(self.records(), count as int),
    {
        let total = self.records.len();
        let start: usize = if count < total {
            total - count
        } else {
            0
        };
        proof {
            assert(self.records@.subrange(start as int, total as int) =~= newest(
                self.records@,
                count as int,
            ));
        }
        slice_subrange(self.records.as_slice(), start, total)
    }

    /// Drops the oldest records over the limit.
    fn prune(&mut self)
        ensures
            final(self).records() == newest(old(self).records(), old(self).max_entries()),
            final(self).max_entries() == old(self).max_entries(),
    {
        let total = self.records.len();
        if total > self.max_entries {
            let excess: usize = total - self.max_entries;
            let kept = self.records.split_off(excess);
            self.records = kept;
            proof {
                assert(self.records@ =~= newest(old(self).records@, old(self).max_entries as int));
            }
        }
    }
}

/// A log never holds more records than its limit behind a push.
pub proof fn law_push_keeps_limit(records: Seq<UndoRecord>, record: UndoRecord, max: int)
    requires
        0 <= max,
    ensures
        newest(records.push(record), max).len() <= max,
        max > 0 ==> newest(records.push(record), max).last() == record,
{
}

/// Pushing a record and popping one gives the record back and leaves the log as
/// it was, less what the limit dropped.
pub proof fn law_pop_undoes_push(records: Seq<UndoRecord>, record: UndoRecord, max: int)
    requires
        0 < max,
        records.len() <= max,
    ensures
        ({
            let pushed = newest(records.push(record), max);
            let n = pushed.len() as int;
            &&& pushed.skip(n - 1).reverse() == seq![record]
            &&& pushed.take(n - 1) == newest(records, max - 1)
        }),
{
    let pushed = newest(records.push(record), max);
    let n = pushed.len() as int;
    assert(pushed.skip(n - 1).reverse() =~= seq![record]);
    assert(pushed.take(n - 1) =~= newest(records, max - 1));
}

// ---------------------------------------------------------------------------
// The log as lines
// ---------------------------------------------------------------------------

/// The lines of a log file that hold a record: those that are not blank.
pub open spec fn record_lines(ls: Seq<Seq<char>>, n: int) -> Seq<Seq<char>>
    decreases n,
{
    if n <= 0 {
        Seq::empty()
    } else if script::trim(ls[n - 1]).len() == 0 {
        record_lines(ls, n - 1)
    } else {
        record_lines(ls, n - 1).push(ls[n - 1])
    }
}

/// The lines of a log file that hold a record.
pub fn split_jsonl(content: &str) -> (r: Vec<String>)
    ensures
        strings::strings_view(r@) == record_lines(
            lines::lines(content@),
            lines::lines(content@).len() as int,
        ),
{
    let all = split_lines(content);
    let ghost ls = lines::lines(content@);
    let mut out: Vec<String> = Vec::new();
    let mut i: usize = 0;
    proof {
        assert(strings::strings_view(out@) =~= Seq::<Seq<char>>::empty());
    }
    while i < all.len()
        invariant
            strings::strs_view(all@) == ls,
            i <= all@.len(),
            strings::strings_view(out@) == record_lines(ls, i as int),
        decreases all@.len() - i,
    {
        proof {
            assert(ls[i as int] == all@[i as int]@);
        }
        let blank = trimmed_chars(all[i]).len() == 0;
        if !blank {
            let ghost before = out@;
            out.push(owned(all[i]));
            proof {
                assert(strings::strings_view(out@) =~= strings::strings_view(before).push(
                    all@[i as int]@,
                ));
            }
        }
        i += 1;
    }
    proof {
        assert(ls.len() == all@.len());
    }
    out
}

/// Records as a log file: one per line, each line terminated.
pub open spec fn jsonl_text(records: Seq<Seq<char>>) -> Seq<char>
    decreases records.len(),
{
    if records.len() == 0 {
        Seq::empty()
    } else {
        jsonl_text(records.drop_last()) + records.last() + "\n"@
    }
}

/// Records as a log file.
pub fn join_jsonl(records: &Vec<String>) -> (r: String)
    ensures
        r@ == jsonl_text(strings::strings_view(records@)),
{
    let ghost v = strings::strings_view(records@);
    let mut out = String::new();
    let mut i: usize = 0;
    proof {
        assert(v.take(0) =~= Seq::<Seq<char>>::empty());
    }
    while i < records.len()
        invariant
            v == strings::strings_view(records@),
            i <= records@.len(),
            out@ == jsonl_text(v.take(i as int)),
        decreases records@.len() - i,
    {
        proof {
            assert(v.take(i + 1).drop_last() =~= v.take(i as int));
            assert(v.take(i + 1).last() == records@[i as int]@);
        }
        out.append(records[i].as_str());
        out.append("\n");
        i += 1;
    }
    proof {
        assert(v.take(v.len() as int) =~= v);
    }
    out
}

/// A written log reads back as its records, where each record is a line of its
/// own that is not blank.
pub proof fn law_jsonl_round_trip(records: Seq<Seq<char>>)
    requires
        forall|i: int| #![trigger records[i]]
            0 <= i < records.len() ==> !records[i].contains('\n') && (records[i].len() == 0
                || records[i].last() != '\r') && script::trim(records[i]).len() > 0,
    ensures
        ({
            let ls = lines::lines(jsonl_text(records));
            record_lines(ls, ls.len() as int) == records
        }),
{
    reveal_strlit("\n");
    lemma_jsonl_is_rejoin(records);
    crate::laws::law_lines_of_rejoined(records, "\n"@, true);
    lemma_all_records(records, records.len() as int);
    assert(records.take(records.len() as int) =~= records);
}

proof fn lemma_jsonl_is_rejoin(records: Seq<Seq<char>>)
    ensures
        jsonl_text(records) == crate::edits::rejoin(records, "\n"@, true),
    decreases records.len(),
{
    let sep = "\n"@;
    if records.len() == 0 {
        assert(jsonl_text(records) =~= crate::edits::rejoin(records, sep, true));
    } else {
        let head = records.drop_last();
        lemma_jsonl_is_rejoin(head);
        if records.len() == 1 {
            assert(jsonl_text(head) =~= Seq::<char>::empty());
            assert(jsonl_text(records) =~= crate::edits::rejoin(records, sep, true));
        }
    }
}

proof fn lemma_all_records(ls: Seq<Seq<char>>, n: int)
    requires
        0 <= n <= ls.len(),
        forall|i: int| #![trigger ls[i]] 0 <= i < ls.len() ==> script::trim(ls[i]).len() > 0,
    ensures
        record_lines(ls, n) == ls.take(n),
    decreases n,
{
    if n > 0 {
        lemma_all_records(ls, n - 1);
        assert(ls.take(n - 1).push(ls[n - 1]) =~= ls.take(n));
    } else {
        assert(record_lines(ls, n) =~= ls.take(n));
    }
}

// ---------------------------------------------------------------------------
// Recording
// ---------------------------------------------------------------------------

/// The tag that is stored for an encoding: none for plain UTF-8.
pub open spec fn stored_tag(e: SourceEncoding) -> Option<Seq<char>> {
    if e == SourceEncoding::Utf8 {
        None
    } else {
        Some(encoding::encoding_tag(e))
    }
}

/// The record of how to undo an operation on a file.
pub open spec fn undo_record(
    timestamp: Seq<char>,
    file_path: Seq<char>,
    original_text: Seq<char>,
    e: SourceEncoding,
) -> RecordView {
    RecordView { timestamp, file_path, original_text, encoding: stored_tag(e) }
}

/// Records how to undo an operation on a file, at a given time.
pub fn record_undo(
    log: &mut UndoLog,
    timestamp: &str,
    file_path: &str,
    entry: &UndoEntry,
    encoding: SourceEncoding,
)
    ensures
        final(log)@ == logged(
            old(log)@,
            undo_record(timestamp@, file_path@, entry.original_text@, encoding),
        ),
{
    let tag = match encoding {
        SourceEncoding::Utf8 => None,
        _ => Some(owned(encoding.tag())),
    };
    let record = UndoRecord {
        timestamp: owned(timestamp),
        file_path: owned(file_path),
        entry: UndoEntry { original_text: entry.original_text.clone() },
        encoding: tag,
    };
    proof {
        assert(record@ =~= (RecordView {
            timestamp: timestamp@,
            file_path: file_path@,
            original_text: entry.original_text@,
            encoding: stored_tag(encoding),
        }));
    }
    log.push(record);
    proof {
        let before = old(log)@.records.push(record@);
        assert(record_views(old(log).records().push(record)) =~= before);
        assert(record_views(log.records()) =~= newest(before, old(log)@.max_entries));
    }
}

/// Whether a text is too large to keep a copy of (a cap of 0 means no cap).
pub open spec fn over_cap(text: Seq<char>, max_file_bytes: u64) -> bool {
    max_file_bytes > 0 && encode_utf8(text).len() > max_file_bytes
}

/// Records how to undo an operation on a file, unless its text is over the cap.
/// Returns whether it was recorded.
pub fn record_undo_capped(
    log: &mut UndoLog,
    timestamp: &str,
    file_path: &str,
    entry: &UndoEntry,
    encoding: SourceEncoding,
    max_file_bytes: u64,
) -> (recorded: bool)
    ensures
        recorded == !over_cap(entry.original_text@, max_file_bytes),
        final(log)@ == if recorded {
            logged(
                old(log)@,
                undo_record(timestamp@, file_path@, entry.original_text@, encoding),
            )
        } else {
            old(log)@
        },
{
    let size = text_len(entry.original_text.as_str());
    if max_file_bytes > 0 && size as u64 > max_file_bytes {
        return false;
    }
    record_undo(log, timestamp, file_path, entry, encoding);
    true
}

/// What is said where undo was skipped for a file over the cap.
pub open spec fn skip_note(file_path: Seq<char>, size: nat, max_file_bytes: nat) -> Seq<char> {
    "ripsed: undo skipped for "@ + file_path + ": "@ + strings::decimal(size)
        + " bytes exceeds undo.max_file_bytes ("@ + strings::decimal(max_file_bytes)
        + "); use --backup or raise the limit in .ripsed.toml"@
}

/// What is said where undo was skipped for a file over the cap.
pub fn undo_skip_note(file_path: &str, entry: &UndoEntry, max_file_bytes: u64) -> (r: String)
    ensures
        r@ == skip_note(
            file_path@,
            encode_utf8(entry.original_text@).len(),
            max_file_bytes as nat,
        ),
{
    let mut note = owned("ripsed: undo skipped for ");
    note.append(file_path);
    note.append(": ");
    note.append(to_decimal(text_len(entry.original_text.as_str())).as_str());
    note.append(" bytes exceeds undo.max_file_bytes (");
    note.append(u64_to_decimal(max_file_bytes).as_str());
    note.append("); use --backup or raise the limit in .ripsed.toml");
    note
}

/// The encoding that a tag from the log stands for: plain UTF-8 where there is
/// no tag or an unknown one.
pub open spec fn encoding_of_record(tag: Option<Seq<char>>) -> SourceEncoding {
    match tag {
        Some(t) => match encoding::encoding_of_tag(t) {
            Some(e) => e,
            None => SourceEncoding::Utf8,
        },
        None => SourceEncoding::Utf8,
    }
}

/// The encoding to restore a record in.
pub fn undo_record_encoding(record: &UndoRecord) -> (e: SourceEncoding)
    ensures
        e == encoding_of_record(record@.encoding),
{
    match &record.encoding {
        Some(tag) => match SourceEncoding::from_tag(tag.as_str()) {
            Some(e) => e,
            None => SourceEncoding::Utf8,
        },
        None => SourceEncoding::Utf8,
    }
}

/// What a record restores is what the file held, byte for byte: the text that
/// was decoded is encoded again in the encoding that was detected.
pub proof fn law_undo_restores_bytes(bytes: Seq<u8>, record: RecordView)
    requires
        encoding::decoded(bytes) is Ok,
        record.original_text == encoding::decoded(bytes)->Ok_0,
        record.encoding == stored_tag(encoding::detected(bytes)),
    ensures
        encoding::encoded(record.original_text, encoding_of_record(record.encoding)) == bytes,
{
    encoding::law_tag_round_trip(encoding::detected(bytes));
    encoding::law_encode_of_decode(bytes);
}

/// A file to put back as it was.
#[derive(Debug, Clone, PartialEq, Eq)]
pub struct Restore {
    pub file_path: String,
    pub bytes: Vec<u8>,
}

/// Whether a file is put back as a record says.
pub open spec fn restores(restore: Restore, record: RecordView) -> bool {
    &&& restore.file_path@ == record.file_path
    &&& restore.bytes@ == encoding::encoded(
        record.original_text,
        encoding_of_record(record.encoding),
    )
}

/// How many of the records an undo of `count` takes back.
pub open spec fn undo_count(log: LogView, count: int) -> int {
    if count < log.records.len() {
        count
    } else {
        log.records.len() as int
    }
}

/// Takes the last `count` records off the log, and says what is to be put
/// back: the newest first, so that a file that was changed twice ends up as
/// it was before the first of these changes.
pub fn plan_undo(log: &mut UndoLog, count: usize) -> (r: Vec<Restore>)
    ensures
        r@.len() == undo_count(old(log)@, count as int),
        forall|k: int| #![trigger r@[k]]
            0 <= k < r@.len() ==> restores(
                r@[k],
                old(log)@.records[old(log)@.records.len() - 1 - k],
            ),
        final(log)@ == (LogView {
            records: old(log)@.records.take(
                old(log)@.records.len() - undo_count(old(log)@, count as int),
            ),
            ..old(log)@
        }),
{
    let ghost all = log.records();
    let records = log.pop(count);
    proof {
        assert(record_views(log.records()) =~= record_views(all).take(
            all.len() - records@.len(),
        ));
    }
    let mut out: Vec<Restore> = Vec::new();
    let total = records.len();
    let mut i: usize = 0;
    while i < total
        invariant
            total == records@.len(),
            total <= all.len(),
            i <= total,
            records@ == all.skip(all.len() - total).reverse(),
            out@.len() == i,
            forall|k: int| #![trigger out@[k]]
                0 <= k < i ==> restores(out@[k], record_views(all)[all.len() - 1 - k]),
        decreases total - i,
    {
        let record = &records[i];
        proof {
            assert(records@[i as int] == all[all.len() - 1 - i]);
        }
        let e = undo_record_encoding(record);
        out.push(
            Restore {
                file_path: record.file_path.clone(),
                bytes: encode(record.entry.original_text.as_str(), e),
            },
        );
        i += 1;
    }
    out
}

/// One line of the list of what can be undone.
pub open spec fn list_line(number: nat, record: RecordView) -> Seq<char> {
    "  "@ + strings::decimal(number) + " "@ + record.file_path + " ("@ + record.timestamp + ")"@
}

/// How many records the list of what can be undone shows.
pub const MAX_LISTED: usize = 20;

/// The list of what can be undone: the newest records, oldest of them first.
pub fn undo_list(log: &UndoLog) -> (r: Vec<String>)
    ensures
        r@.len() == newest(log@.records, MAX_LISTED as int).len(),
        forall|k: int| #![trigger r@[k]]
            0 <= k < r@.len() ==> r@[k]@ == list_line(
                (k + 1) as nat,
                newest(log@.records, MAX_LISTED as int)[k],
            ),
{
    let recent = log.recent(MAX_LISTED);
    proof {
        assert(newest(log@.records, MAX_LISTED as int) =~= record_views(recent@));
    }
    let total = recent.len();
    let mut out: Vec<String> = Vec::new();
    let mut i: usize = 0;
    while i < total
        invariant
            total == recent@.len(),
            i <= total,
            newest(log@.records, MAX_LISTED as int) == record_views(recent@),
            out@.len() == i,
            forall|k: int| #![trigger out@[k]]
                0 <= k < i ==> out@[k]@ == list_line((k + 1) as nat, record_views(recent@)[k]),
        decreases total - i,
    {
        let mut line = owned("  ");
        line.append(to_decimal(i + 1).as_str());
        line.append(" ");
        line.append(recent[i].file_path.as_str());
        line.append(" (");
        line.append(recent[i].timestamp.as_str());
        line.append(")");
        out.push(line);
        i += 1;
    }
    out
}

/// An undo of one record puts back the bytes that the file held when the
/// record was made.
pub proof fn law_undo_puts_bytes_back(log: LogView, bytes: Seq<u8>, timestamp: Seq<char>, path: Seq<char>, restore: Restore)
    requires
        0 < log.max_entries,
        encoding::decoded(bytes) is Ok,
        restores(
            restore,
            logged(
                log,
                undo_record(
                    timestamp,
                    path,
                    encoding::decoded(bytes)->Ok_0,
                    encoding::detected(bytes),
                ),
            ).records.last(),
        ),
    ensures
        restore.file_path@ == path,
        restore.bytes@ == bytes,
{
    let record = undo_record(
        timestamp,
        path,
        encoding::decoded(bytes)->Ok_0,
        encoding::detected(bytes),
    );
    law_undo_restores_bytes(bytes, record);
}

} // verus!
