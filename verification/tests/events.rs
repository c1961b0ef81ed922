use beemon::bpf_types::{cstr, event_from_bytes, EventT, EVENT_T_SIZE};
use beemon::convert::{convert, decode_sample};
use beemon::pb::event::Event as Payload;
use beemon::pb::{Event, FileWriteEvent, ProcessEvent, SetnsEvent, SyscallEvent};
use beemon::snapshot::invalidations;

fn record(event_type: u32) -> Vec<u8> {
    let mut b = vec![0u8; EVENT_T_SIZE];
    b[0..4].copy_from_slice(&4242u32.to_le_bytes());
    b[4..8].copy_from_slice(&4240u32.to_le_bytes());
    b[8..12].copy_from_slice(&event_type.to_le_bytes());
    b[16..24].copy_from_slice(&123456789u64.to_le_bytes());
    b
}

#[test]
fn cstr_trims_at_nul() {
    assert_eq!(cstr(b"bash\0junk"), "bash");
    assert_eq!(cstr(b"no-nul"), "no-nul");
    assert_eq!(cstr(b"\0"), "");
    assert_eq!(cstr(&[0xff, 0xfe, 0]), "");
    assert_eq!(cstr("héllo\0".as_bytes()), "héllo");
}

#[test]
fn decodes_header_fields() {
    let e: EventT = event_from_bytes(&record(1));
    assert_eq!(e.pid, 4242);
    assert_eq!(e.tgid, 4240);
    assert_eq!(e.event_type, 1);
    assert_eq!(e.ts, 123456789);
}

#[test]
fn converts_syscall_and_unknown_types() {
    let mut b = record(1);
    b[24..28].copy_from_slice(&59u32.to_le_bytes());
    let ev = decode_sample(&b).unwrap();
    assert_eq!(ev, Event { timestamp_ns: 123456789, pid: 4242, event: Some(Payload::Syscall(SyscallEvent { syscall_id: 59 })) });
    let ev = decode_sample(&record(99)).unwrap();
    assert_eq!(ev.event, Some(Payload::Syscall(SyscallEvent { syscall_id: 0 })));
    assert!(decode_sample(&record(1)[..EVENT_T_SIZE - 1]).is_none());
}

#[test]
fn converts_file_write_payload_prefix() {
    let mut b = record(6);
    b[976..980].copy_from_slice(&3u32.to_le_bytes());
    b[984..992].copy_from_slice(&5u64.to_le_bytes());
    b[992..997].copy_from_slice(b"hello");
    let ev = decode_sample(&b).unwrap();
    assert_eq!(ev.event, Some(Payload::FileWrite(FileWriteEvent { fd: 3, count: 5, data: b"hello".to_vec() })));
    let mut b = record(6);
    b[984..992].copy_from_slice(&100000u64.to_le_bytes());
    match decode_sample(&b).unwrap().event {
        Some(Payload::FileWrite(w)) => assert_eq!(w.data.len(), 256),
        other => panic!("unexpected {:?}", other),
    }
}

#[test]
fn converts_process_payload() {
    let mut b = record(4);
    b[304..308].copy_from_slice(&77u32.to_le_bytes());
    b[312..316].copy_from_slice(b"bash");
    b[329] = 1;
    b[331] = 9;
    b[332..341].copy_from_slice(b"/bin/bash");
    b[588..590].copy_from_slice(b"-c");
    b[652..656].copy_from_slice(b"ls\0x");
    let ev = decode_sample(&b).unwrap();
    match ev.event {
        Some(Payload::Process(p)) => {
            assert_eq!(
                p,
                ProcessEvent {
                    is_exec: true,
                    is_fork: false,
                    is_exit: false,
                    comm: "bash".into(),
                    child_pid: 77,
                    exit_code: 0,
                    filename: "/bin/bash".into(),
                    args: vec!["-c".into(), "ls".into(), "".into(), "".into(), "".into(), "".into()],
                }
            );
        }
        other => panic!("unexpected {:?}", other),
    }
}

#[test]
fn convert_keeps_time_and_pid() {
    let e = event_from_bytes(&record(10));
    let ev = convert(&e);
    assert_eq!(ev.timestamp_ns, 123456789);
    assert_eq!(ev.pid, 4242);
    assert_eq!(ev.event, Some(Payload::Setns(SetnsEvent { fd: 0, nstype: 0 })));
}

#[test]
fn events_invalidate_caches() {
    let exit = Event { timestamp_ns: 0, pid: 5, event: Some(Payload::Process(ProcessEvent { is_exit: true, ..Default::default() })) };
    assert_eq!(invalidations(&exit), (true, false));
    let setns = Event { timestamp_ns: 0, pid: 5, event: Some(Payload::Setns(SetnsEvent { fd: 1, nstype: 0 })) };
    assert_eq!(invalidations(&setns), (true, true));
    let other = Event { timestamp_ns: 0, pid: 5, event: None };
    assert_eq!(invalidations(&other), (false, false));
}
