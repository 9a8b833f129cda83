use task_maker::exec::transfer::{
    frame_file, ConnectionPolicy, FileAssembler, FileProtocol, RemoteEntityMessage,
};

#[test]
fn a_file_is_cut_into_pieces_and_put_together_again() {
    let content: Vec<u8> = (0..10_000u32).map(|i| (i % 251) as u8).collect();
    let pieces = frame_file(&content);
    assert_eq!(pieces.len(), 4);
    assert_eq!(
        pieces[0],
        FileProtocol::Data(content[..4096].to_vec())
    );
    assert_eq!(
        pieces[2],
        FileProtocol::Data(content[8192..].to_vec())
    );
    assert_eq!(pieces[3], FileProtocol::End);
    let mut receiver = FileAssembler::new();
    let mut complete = false;
    for piece in pieces {
        assert!(!complete);
        complete = receiver.push(piece);
    }
    assert!(complete);
    assert_eq!(receiver.finish(), Some(content));
}

#[test]
fn an_empty_file_is_an_end_mark_alone() {
    let pieces = frame_file(&[]);
    assert_eq!(pieces, vec![FileProtocol::End]);
    let mut receiver = FileAssembler::new();
    assert!(receiver.push(FileProtocol::End));
    assert_eq!(receiver.finish(), Some(Vec::new()));
}

#[test]
fn a_file_without_its_end_is_not_handed_out() {
    let mut receiver = FileAssembler::new();
    assert!(!receiver.push(FileProtocol::Data(vec![1, 2, 3])));
    assert_eq!(receiver.finish(), None);
}

#[test]
fn bytes_behind_the_end_are_dropped() {
    let mut receiver = FileAssembler::new();
    receiver.push(FileProtocol::Data(vec![1, 2]));
    receiver.push(FileProtocol::End);
    assert!(receiver.push(FileProtocol::Data(vec![3])));
    assert_eq!(receiver.finish(), Some(vec![1, 2]));
}

#[test]
fn a_peer_is_admitted_by_its_name() {
    let welcome = RemoteEntityMessage::Welcome {
        name: "alice@box".to_string(),
    };
    assert!(ConnectionPolicy::Everybody.admits(&welcome));
    let only = ConnectionPolicy::Only(vec![
        "bob@box".to_string(),
        "alice@box".to_string(),
    ]);
    assert!(only.admits(&welcome));
    let others =
        ConnectionPolicy::Only(vec!["bob@box".to_string()]);
    assert!(!others.admits(&welcome));
    assert!(!ConnectionPolicy::Only(Vec::new()).admits(&welcome));
}
