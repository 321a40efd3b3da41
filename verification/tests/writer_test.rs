//! Writing files, one at a time and in batches.
use ripsed::encoding::SourceEncoding;
use ripsed::writer::{
    write_atomic, write_atomic_batch, AtomicBatch, CommitEvent, CommitStep,
};
use std::collections::BTreeMap;

type Files = BTreeMap<String, Vec<u8>>;

/// Commits a batch to files in memory; the write of number `broken` fails.
fn commit(batch: AtomicBatch, files: &mut Files, broken: Option<usize>) -> Result<(), String> {
    let staged: Vec<(String, Vec<u8>)> =
        batch.pending().iter().map(|w| (w.path.clone(), w.bytes.clone())).collect();
    let mut c = batch.commit();
    loop {
        let event = match c.action() {
            CommitStep::Save(i) => match files.get(&staged[i].0) {
                Some(b) => CommitEvent::Found(b.clone()),
                None => CommitEvent::Absent,
            },
            CommitStep::Persist(i) => {
                if broken == Some(i) {
                    CommitEvent::Failed("no space".to_string())
                } else {
                    files.insert(staged[i].0.clone(), staged[i].1.clone());
                    CommitEvent::Done
                }
            }
            CommitStep::Restore(i, bytes) => {
                files.insert(staged[i].0.clone(), bytes);
                CommitEvent::Done
            }
            CommitStep::Remove(i) => {
                files.remove(&staged[i].0);
                CommitEvent::Done
            }
            CommitStep::Finish => break,
        };
        c = c.answer(event);
    }
    c.result().unwrap()
}

fn files(list: &[(&str, &str)]) -> Files {
    list.iter().map(|(p, t)| (p.to_string(), t.as_bytes().to_vec())).collect()
}

fn batch(list: &[(&str, &str)]) -> AtomicBatch {
    write_atomic_batch(&list.iter().map(|(p, t)| (p.to_string(), t.to_string())).collect())
}

#[test]
fn write_atomic_batch_empty() {
    let mut f = files(&[]);
    assert_eq!(commit(write_atomic_batch(&vec![]), &mut f, None), Ok(()));
    assert!(f.is_empty());
}

#[test]
fn a_text_is_written_as_it_is() {
    assert_eq!(write_atomic("hé\u{0}llo"), "hé\u{0}llo".as_bytes().to_vec());
}

#[test]
fn a_batch_writes_all_its_files() {
    let mut f = files(&[("a.txt", "old_a"), ("b.txt", "old_b"), ("c.txt", "kept")]);
    assert_eq!(commit(batch(&[("a.txt", "new_a"), ("b.txt", "new_b")]), &mut f, None), Ok(()));
    assert_eq!(f, files(&[("a.txt", "new_a"), ("b.txt", "new_b"), ("c.txt", "kept")]));
}

#[test]
fn the_last_write_to_a_file_counts() {
    let mut f = files(&[("a.txt", "old")]);
    assert_eq!(commit(batch(&[("a.txt", "one"), ("a.txt", "two")]), &mut f, None), Ok(()));
    assert_eq!(f, files(&[("a.txt", "two")]));
}

#[test]
fn a_failure_puts_everything_back() {
    let before = files(&[("a.txt", "old_a"), ("c.txt", "old_c")]);
    let mut f = before.clone();
    let b = batch(&[("a.txt", "new_a"), ("b.txt", "new_b"), ("c.txt", "new_c")]);
    assert_eq!(commit(b, &mut f, Some(2)), Err("no space".to_string()));
    assert_eq!(f, before);
    let mut f = before.clone();
    assert_eq!(commit(batch(&[("a.txt", "x")]), &mut f, Some(0)), Err("no space".to_string()));
    assert_eq!(f, before);
    let mut f = before.clone();
    let twice = batch(&[("a.txt", "one"), ("a.txt", "two"), ("b.txt", "x")]);
    assert!(commit(twice, &mut f, Some(2)).is_err());
    assert_eq!(f, before);
}

#[test]
fn a_file_that_cannot_be_saved_stops_the_commit() {
    let c = batch(&[("a.txt", "x"), ("b.txt", "y")]).commit();
    assert_eq!(c.action(), CommitStep::Save(0));
    let c = c.answer(CommitEvent::Found(b"old".to_vec()));
    assert_eq!(c.action(), CommitStep::Save(1));
    assert_eq!(c.result(), None);
    let c = c.answer(CommitEvent::Failed("denied".to_string()));
    assert_eq!(c.action(), CommitStep::Finish);
    assert_eq!(c.result(), Some(Err("denied".to_string())));
}

#[test]
fn a_file_that_cannot_be_put_back_does_not_stop_the_others() {
    let c = batch(&[("a", "1"), ("b", "2"), ("c", "3")]).commit();
    let c = c.answer(CommitEvent::Found(b"A".to_vec())).answer(CommitEvent::Absent);
    let c = c.answer(CommitEvent::Absent);
    assert_eq!(c.action(), CommitStep::Persist(0));
    let c = c.answer(CommitEvent::Done).answer(CommitEvent::Done);
    assert_eq!(c.action(), CommitStep::Persist(2));
    let c = c.answer(CommitEvent::Failed("full".to_string()));
    assert_eq!(c.action(), CommitStep::Restore(0, b"A".to_vec()));
    let c = c.answer(CommitEvent::Failed("gone".to_string()));
    assert_eq!(c.action(), CommitStep::Remove(1));
    let c = c.answer(CommitEvent::Done);
    assert_eq!(c.result(), Some(Err("full".to_string())));
}

#[test]
fn a_batch_keeps_encodings() {
    let mut b = AtomicBatch::default();
    b.stage_encoded("a", "hi", SourceEncoding::Utf16Le);
    b.stage("b", "hi");
    b.stage_bytes("c", vec![1, 2]);
    let bytes: Vec<Vec<u8>> = b.pending().iter().map(|w| w.bytes.clone()).collect();
    assert_eq!(bytes, vec![vec![0xFF, 0xFE, b'h', 0, b'i', 0], b"hi".to_vec(), vec![1, 2]]);
}

#[test]
fn atomic_batch_commit() {
    let mut f = files(&[]);
    let mut b = AtomicBatch::new();
    b.stage("a.txt", "aaa");
    b.stage("b.txt", "bbb");
    assert_eq!(commit(b, &mut f, None), Ok(()));
    assert_eq!(f, files(&[("a.txt", "aaa"), ("b.txt", "bbb")]));
}

#[test]
fn write_atomic_batch_success() {
    let mut f = files(&[]);
    assert_eq!(commit(batch(&[("x.txt", "xx"), ("y.txt", "yy")]), &mut f, None), Ok(()));
    assert_eq!(f, files(&[("x.txt", "xx"), ("y.txt", "yy")]));
}

#[test]
fn atomic_batch_commit_mid_failure_restores_originals() {
    let before = files(&[("a.txt", "original_a"), ("b.txt", "original_b")]);
    let mut f = before.clone();
    let mut b = AtomicBatch::new();
    b.stage("a.txt", "new_a");
    b.stage("b.txt", "new_b");
    b.stage("c.txt", "new_c");
    assert!(commit(b, &mut f, Some(2)).is_err());
    assert_eq!(f, before);
}

#[test]
fn atomic_batch_rollback_removes_files_that_didnt_exist_before() {
    let mut f = files(&[]);
    let mut b = AtomicBatch::new();
    b.stage("new_file.txt", "created_by_batch");
    b.stage("c.txt", "will_fail");
    assert!(commit(b, &mut f, Some(1)).is_err());
    assert!(!f.contains_key("new_file.txt"));
}
