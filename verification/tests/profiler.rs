use scriptexec::{
    profiler_end, profiler_start, Instruction, LabelStats, Profiler, ProfilerError, Stage,
};

fn decode(script: &[u8]) -> Vec<Instruction> {
    let mut out = Vec::new();
    for ins in bitcoin::Script::from_bytes(script).instructions() {
        match ins.unwrap() {
            bitcoin::script::Instruction::PushBytes(b) => {
                out.push(Instruction::PushBytes(b.as_bytes().to_vec()))
            }
            bitcoin::script::Instruction::Op(op) => out.push(Instruction::Op(op.to_u8())),
        }
    }
    out
}

fn feed(p: &mut Profiler, script: &[u8]) -> Result<(), ProfilerError> {
    for ins in decode(script) {
        assert!(p.has_room_for(&ins));
        p.update(&ins)?;
    }
    Ok(())
}

fn push_of(len: usize) -> Instruction {
    Instruction::PushBytes(vec![0x11; len])
}

const OP_ADD: u8 = 0x93;
const OP_DROP: u8 = 0x75;
const OP_NOP9: u8 = 0xb8;
const OP_NOP10: u8 = 0xb9;

#[test]
fn marker_bytes() {
    assert_eq!(profiler_start("a"), vec![0xb8, 0x01, b'a', 0x75]);
    assert_eq!(profiler_end("a"), vec![0xb9, 0x01, b'a', 0x75]);
    assert_eq!(profiler_start(""), vec![0xb8, 0x00, 0x75]);
    assert_eq!(profiler_end("ab"), vec![0xb9, 0x02, b'a', b'b', 0x75]);
}

#[test]
fn marker_with_long_label() {
    let label = "x".repeat(76);
    let bytes = profiler_start(&label);
    assert_eq!(bytes.len(), 1 + 2 + 76 + 1);
    assert_eq!(&bytes[..3], &[0xb8, 0x4c, 76]);
    assert_eq!(bytes[bytes.len() - 1], 0x75);
    let label = "y".repeat(300);
    let bytes = profiler_end(&label);
    assert_eq!(bytes.len(), 1 + 3 + 300 + 1);
    assert_eq!(&bytes[..4], &[0xb9, 0x4d, 0x2c, 0x01]);
    let label = "z".repeat(65536);
    let bytes = profiler_end(&label);
    assert_eq!(bytes.len(), 1 + 5 + 65536 + 1);
    assert_eq!(&bytes[..6], &[0xb9, 0x4e, 0x00, 0x00, 0x01, 0x00]);
}

#[test]
fn marker_decodes_to_three_instructions() {
    assert_eq!(
        decode(&profiler_start("héllo")),
        vec![
            Instruction::Op(OP_NOP9),
            Instruction::PushBytes("héllo".as_bytes().to_vec()),
            Instruction::Op(OP_DROP),
        ]
    );
    assert_eq!(
        decode(&profiler_end("b")),
        vec![
            Instruction::Op(OP_NOP10),
            Instruction::PushBytes(vec![b'b']),
            Instruction::Op(OP_DROP),
        ]
    );
}

#[test]
fn region_with_one_push() {
    let mut p = Profiler::new();
    assert_eq!(feed(&mut p, &profiler_start("a")), Ok(()));
    assert_eq!(p.update(&Instruction::PushBytes(vec![1, 2, 3])), Ok(()));
    assert_eq!(feed(&mut p, &profiler_end("a")), Ok(()));
    assert_eq!(p.count.len(), 1);
    assert_eq!(p.count.get("a"), Some(&vec![4usize]));
    assert_eq!(p.complete(), Ok(()));
    assert_eq!(p.weight(), 4);
}

#[test]
fn label_outside_ascii() {
    let mut p = Profiler::new();
    feed(&mut p, &profiler_start("héllo wörld")).unwrap();
    p.update(&Instruction::Op(OP_ADD)).unwrap();
    feed(&mut p, &profiler_end("héllo wörld")).unwrap();
    assert_eq!(p.count.get("héllo wörld"), Some(&vec![1usize]));
    assert_eq!(p.complete(), Ok(()));
}

#[test]
fn end_without_start() {
    let mut p = Profiler::new();
    assert_eq!(feed(&mut p, &profiler_end("a")), Err(ProfilerError::RegionNotStarted));
    assert!(p.count.is_empty());
}

#[test]
fn end_in_wrong_order() {
    let mut p = Profiler::new();
    assert_eq!(feed(&mut p, &profiler_start("a")), Ok(()));
    assert_eq!(feed(&mut p, &profiler_start("b")), Ok(()));
    assert_eq!(feed(&mut p, &profiler_end("a")), Err(ProfilerError::RegionNotStarted));
    assert!(p.count.is_empty());
}

#[test]
fn nested_regions() {
    let mut p = Profiler::new();
    feed(&mut p, &profiler_start("outer")).unwrap();
    p.update(&Instruction::Op(OP_ADD)).unwrap();
    feed(&mut p, &profiler_start("inner")).unwrap();
    p.update(&push_of(10)).unwrap();
    feed(&mut p, &profiler_end("inner")).unwrap();
    p.update(&Instruction::Op(OP_ADD)).unwrap();
    feed(&mut p, &profiler_end("outer")).unwrap();
    assert_eq!(p.complete(), Ok(()));
    let rows: Vec<(String, Vec<usize>)> =
        p.count.iter().map(|(k, v)| (k.clone(), v.clone())).collect();
    assert_eq!(
        rows,
        vec![("inner".to_string(), vec![11]), ("outer".to_string(), vec![13])]
    );
}

#[test]
fn repeated_label_grows_its_list() {
    let mut p = Profiler::new();
    for n in [1usize, 2, 3] {
        feed(&mut p, &profiler_start("first")).unwrap();
        for _ in 0..n {
            p.update(&Instruction::Op(OP_ADD)).unwrap();
        }
        feed(&mut p, &profiler_end("first")).unwrap();
        feed(&mut p, &profiler_start("second")).unwrap();
        feed(&mut p, &profiler_end("second")).unwrap();
    }
    let rows: Vec<(String, Vec<usize>)> =
        p.count.iter().map(|(k, v)| (k.clone(), v.clone())).collect();
    assert_eq!(
        rows,
        vec![("first".to_string(), vec![1, 2, 3]), ("second".to_string(), vec![0, 0, 0])]
    );
    assert_eq!(
        p.stats(),
        vec![
            LabelStats { label: "first".to_string(), occurrences: 3, total: 6 },
            LabelStats { label: "second".to_string(), occurrences: 3, total: 0 },
        ]
    );
    assert_eq!(p.counts(), &p.count);
    assert_eq!(p.complete(), Ok(()));
}

#[test]
fn stats_of_empty_profiler() {
    assert_eq!(Profiler::new().stats(), Vec::<LabelStats>::new());
    assert_eq!(Profiler::default().weight(), 0);
}

#[test]
fn push_weights() {
    for (len, weight) in [
        (0usize, 1usize),
        (1, 2),
        (3, 4),
        (75, 76),
        (76, 78),
        (255, 257),
        (256, 259),
        (65535, 65538),
        (65536, 65541),
        (70000, 70005),
    ] {
        let mut p = Profiler::new();
        p.update(&push_of(len)).unwrap();
        assert_eq!(p.weight(), weight);
    }
}

#[test]
fn push_weight_is_the_size_of_the_push() {
    for len in [0usize, 1, 75, 76, 255, 256, 65535, 65536] {
        let mut p = Profiler::new();
        p.update(&push_of(len)).unwrap();
        let script = bitcoin::script::Builder::new()
            .push_slice(bitcoin::script::PushBytesBuf::try_from(vec![0x11; len]).unwrap())
            .into_bytes();
        assert_eq!(p.weight(), script.len());
    }
}

#[test]
fn opcodes_weigh_one() {
    let mut p = Profiler::new();
    for op in [0x00u8, 0x51, OP_ADD, OP_DROP, 0xb7, 0xba, 0xff] {
        p.update(&Instruction::Op(op)).unwrap();
    }
    assert_eq!(p.weight(), 7);
    assert_eq!(p.complete(), Ok(()));
}

#[test]
fn markers_weigh_nothing() {
    let mut p = Profiler::new();
    feed(&mut p, &profiler_start("some label")).unwrap();
    feed(&mut p, &profiler_end("some label")).unwrap();
    assert_eq!(p.weight(), 0);
    assert_eq!(p.count.get("some label"), Some(&vec![0usize]));
}

#[test]
fn opcode_in_place_of_label() {
    let mut p = Profiler::new();
    p.update(&Instruction::Op(OP_NOP9)).unwrap();
    assert_eq!(p.update(&Instruction::Op(OP_ADD)), Err(ProfilerError::ExpectedPushBytes));
    assert_eq!(p.update(&Instruction::Op(OP_DROP)), Err(ProfilerError::ExpectedPushBytes));
    let mut p = Profiler::new();
    p.update(&Instruction::Op(OP_NOP10)).unwrap();
    assert_eq!(p.update(&Instruction::Op(OP_NOP10)), Err(ProfilerError::ExpectedPushBytes));
    // the profiler still waits for the label
    assert_eq!(p.update(&push_of(2)), Ok(()));
    assert_eq!(p.weight(), 0);
}

#[test]
fn opcode_in_place_of_discard() {
    let mut p = Profiler::new();
    p.update(&Instruction::Op(OP_NOP9)).unwrap();
    p.update(&Instruction::PushBytes(b"a".to_vec())).unwrap();
    assert_eq!(p.update(&Instruction::Op(OP_ADD)), Err(ProfilerError::ExpectedDrop));
    assert_eq!(p.update(&Instruction::Op(OP_NOP9)), Err(ProfilerError::ExpectedDrop));
    assert_eq!(p.update(&Instruction::Op(OP_DROP)), Ok(()));
    let mut p = Profiler::new();
    p.update(&Instruction::Op(OP_NOP10)).unwrap();
    p.update(&Instruction::PushBytes(b"a".to_vec())).unwrap();
    assert_eq!(p.update(&Instruction::Op(OP_ADD)), Err(ProfilerError::ExpectedDrop));
}

#[test]
fn push_in_place_of_discard() {
    let mut p = Profiler::new();
    p.update(&Instruction::Op(OP_NOP9)).unwrap();
    p.update(&Instruction::PushBytes(b"a".to_vec())).unwrap();
    assert!(p.has_room_for(&push_of(3)));
    assert_eq!(p.update(&push_of(3)), Err(ProfilerError::ExpectedDrop));
    // nothing was counted, and the discard is still due
    assert_eq!(p.weight(), 0);
    assert_eq!(p.complete(), Err(ProfilerError::UnfinishedMarker));
    assert_eq!(p.update(&Instruction::Op(OP_DROP)), Ok(()));
    assert_eq!(p.complete(), Err(ProfilerError::UnclosedRegion));
    p.update(&Instruction::Op(OP_NOP10)).unwrap();
    p.update(&Instruction::PushBytes(b"a".to_vec())).unwrap();
    assert_eq!(p.update(&push_of(70000)), Err(ProfilerError::ExpectedDrop));
    assert_eq!(p.weight(), 0);
    assert!(p.count.is_empty());
    assert_eq!(p.update(&Instruction::Op(OP_DROP)), Ok(()));
    assert_eq!(p.count.get("a"), Some(&vec![0usize]));
    assert_eq!(p.complete(), Ok(()));
}

#[test]
fn complete_inside_a_marker() {
    let mut p = Profiler::new();
    p.update(&Instruction::Op(OP_NOP9)).unwrap();
    assert_eq!(p.complete(), Err(ProfilerError::UnfinishedMarker));
    p.update(&Instruction::PushBytes(b"a".to_vec())).unwrap();
    assert_eq!(p.complete(), Err(ProfilerError::UnfinishedMarker));
    let mut p = Profiler::new();
    p.update(&Instruction::Op(OP_NOP10)).unwrap();
    assert_eq!(p.complete(), Err(ProfilerError::UnfinishedMarker));
}

#[test]
fn complete_with_open_region() {
    let mut p = Profiler::new();
    feed(&mut p, &profiler_start("a")).unwrap();
    assert_eq!(p.complete(), Err(ProfilerError::UnclosedRegion));
    feed(&mut p, &profiler_end("a")).unwrap();
    assert_eq!(p.complete(), Ok(()));
}

#[test]
fn label_that_is_not_utf8() {
    let mut p = Profiler::new();
    for op in [OP_NOP9, OP_NOP10] {
        p.update(&Instruction::Op(op)).unwrap();
        p.update(&Instruction::PushBytes(vec![b'a', 0xff, b'b'])).unwrap();
        p.update(&Instruction::Op(OP_DROP)).unwrap();
    }
    assert_eq!(p.count.get("a\u{fffd}b"), Some(&vec![0usize]));
    assert_eq!(p.count.len(), 1);
}

#[test]
fn clone_keeps_the_state() {
    let mut p = Profiler::new();
    feed(&mut p, &profiler_start("a")).unwrap();
    p.update(&Instruction::Op(OP_ADD)).unwrap();
    feed(&mut p, &profiler_end("a")).unwrap();
    feed(&mut p, &profiler_start("b")).unwrap();
    p.update(&Instruction::Op(OP_NOP10)).unwrap();
    let mut q = p.clone();
    assert_eq!(q.count, p.count);
    assert_eq!(q.weight(), 1);
    q.update(&Instruction::PushBytes(b"b".to_vec())).unwrap();
    q.update(&Instruction::Op(OP_DROP)).unwrap();
    assert_eq!(q.count.get("b"), Some(&vec![0usize]));
    assert_eq!(q.complete(), Ok(()));
    assert_eq!(p.complete(), Err(ProfilerError::UnfinishedMarker));
}

#[test]
fn room_for_instructions() {
    let p = Profiler::new();
    assert!(p.has_room_for(&push_of(100)));
    assert!(p.has_room_for(&Instruction::Op(OP_ADD)));
    assert!(p.has_room_for(&Instruction::Op(OP_NOP9)));
}

#[test]
fn default_stage_is_pending() {
    assert_eq!(Stage::default(), Stage::Pending);
}

#[test]
fn profiler_error_in_words() {
    assert_eq!(
        ProfilerError::ExpectedPushBytes.message(),
        "Expecting pushbytes after PROFILER_START or PROFILER_END. Found other opcodes."
    );
    assert_eq!(
        ProfilerError::ExpectedDrop.message(),
        "Expecting AS_FOLLOWS after pushbytes. Found other opcodes."
    );
    assert_eq!(
        ProfilerError::RegionNotStarted.message(),
        "Ending a profiler unit that hasn't been started."
    );
    assert_eq!(
        ProfilerError::UnfinishedMarker.message(),
        "There seems to be unfinished profiling instructions."
    );
    assert_eq!(
        ProfilerError::UnclosedRegion.message(),
        "There seems to be unclosed profiling steps."
    );
}
