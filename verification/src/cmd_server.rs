use vstd::prelude::*;

use crate::command::{lemma_cmd_id_matches_view, spec_parse_command, spec_view_id, Command, CommandId};
use crate::protocol::frame::{
    build_frames, spec_frame_views, spec_payload_concat, Frame, FrameView,
};
use crate::protocol::head::Head;
use crate::protocol::kind::Kind;
use crate::protocol::CURRENT_VERSION;
use crate::wire::{bytes_to_string_lossy, push_bytes, utf8_lossy_of};

verus! {

broadcast use vstd::seq::group_seq_axioms, vstd::std_specs::vec::group_vec_axioms;

/// Failures of a command-server session.
#[derive(PartialEq, Eq, Clone, Copy, Debug, Structural)]
pub enum ServerError {
    /// A frame named a protocol version this server does not speak; the
    /// session is torn down.
    WrongVersion,
}

/// Failures of the transport under a session.
#[derive(PartialEq, Eq, Clone, Copy, Debug, Structural)]
pub enum TransportError {
    /// The peer closed the stream in the middle of a frame.
    ConnectionReset,
    /// A write did not go through.
    WriteFailed,
}

/// One inbound unit the server acts on: a probe, its reply, a whole
/// command, or a peer's error report.
pub enum CmdServerMessage {
    PING,
    PONG,
    CMD(Command),
    ERROR(String),
}

/// The concatenated payload bytes of an accumulated frame run.
pub fn concat_payloads(frames: &Vec<Frame>) -> (r: Vec<u8>)
    ensures
        r@ == spec_payload_concat(spec_frame_views(frames@)),
{
    let mut out: Vec<u8> = Vec::new();
    let mut i: usize = 0;
    proof {
        assert(spec_frame_views(frames@).subrange(0, 0) =~= Seq::<FrameView>::empty());
        assert(out@ =~= spec_payload_concat(spec_frame_views(frames@).subrange(0, 0)));
    }
    while i < frames.len()
        invariant
            i <= frames@.len(),
            out@ == spec_payload_concat(spec_frame_views(frames@).subrange(0, i as int)),
        decreases frames@.len() - i,
    {
        push_bytes(&mut out, frames[i].payload.as_slice());
        proof {
            let views = spec_frame_views(frames@);
            assert(views[i as int] == frames@[i as int]@);
            assert(views.subrange(0, i + 1) =~= views.subrange(0, i as int).push(views[i as int]));
            crate::protocol::frame::lemma_payload_concat_push(
                views.subrange(0, i as int),
                views[i as int],
            );
        }
        i = i + 1;
    }
    proof {
        assert(spec_frame_views(frames@).subrange(0, spec_frame_views(frames@).len() as int)
            =~= spec_frame_views(frames@));
    }
    out
}

/// Read the command a finished frame run carries.
pub fn parse_cmd(frames: &Vec<Frame>) -> (r: Command)
    ensures
        r@ == spec_parse_command(spec_payload_concat(spec_frame_views(frames@))),
{
    let payload = concat_payloads(frames);
    Command::from_payload(payload.as_slice())
}

/// Read the text a finished error frame run carries.
pub fn parse_error_message(frames: &Vec<Frame>) -> (r: String)
    ensures
        r@ == utf8_lossy_of(spec_payload_concat(spec_frame_views(frames@))),
{
    let payload = concat_payloads(frames);
    bytes_to_string_lossy(payload.as_slice())
}

/// The read side of one session: frames accumulate until a terminal frame
/// finishes the logical message they belong to.
///
/// A probe or its reply is delivered at once and clears anything that was
/// accumulating; a frame of a version this server does not speak tears the
/// session down; a frame of no known kind is dropped.
pub struct MessageAssembler {
    frames: Vec<Frame>,
}

impl View for MessageAssembler {
    type V = Seq<FrameView>;

    closed spec fn view(&self) -> Seq<FrameView> {
        spec_frame_views(self.frames@)
    }
}

impl MessageAssembler {
    /// An assembler with nothing accumulated.
    pub fn new() -> (r: Self)
        ensures
            r@ == Seq::<FrameView>::empty(),
    {
        let r = MessageAssembler { frames: Vec::new() };
        proof {
            assert(r@ =~= Seq::<FrameView>::empty());
        }
        r
    }

    /// Take in the next frame off the wire.
    pub fn push(&mut self, frame: Frame) -> (r: Result<Option<CmdServerMessage>, ServerError>)
        ensures
            frame@.version != CURRENT_VERSION ==> r == Err::<
                Option<CmdServerMessage>,
                ServerError,
            >(ServerError::WrongVersion) && final(self)@ == old(self)@,
            frame@.version == CURRENT_VERSION ==> match frame@.kind {
                Kind::PING => r matches Ok(Some(CmdServerMessage::PING)) && final(self)@
                    == Seq::<FrameView>::empty(),
                Kind::PONG => r matches Ok(Some(CmdServerMessage::PONG)) && final(self)@
                    == Seq::<FrameView>::empty(),
                Kind::CMD | Kind::RAFT => if frame@.head == Head::FIN {
                    r matches Ok(Some(CmdServerMessage::CMD(c))) && c@ == spec_parse_command(
                        spec_payload_concat(old(self)@.push(frame@)),
                    ) && final(self)@ == Seq::<FrameView>::empty()
                } else {
                    r matches Ok(o) && o is None && final(self)@ == old(self)@.push(frame@)
                },
                Kind::ERROR => if frame@.head == Head::FIN {
                    r matches Ok(Some(CmdServerMessage::ERROR(m))) && m@ == utf8_lossy_of(
                        spec_payload_concat(old(self)@.push(frame@)),
                    ) && final(self)@ == Seq::<FrameView>::empty()
                } else {
                    r matches Ok(o) && o is None && final(self)@ == old(self)@.push(frame@)
                },
                Kind::UNKNOWN => r matches Ok(o) && o is None && final(self)@ == old(self)@,
            },
    {
        let ghost f0 = self.frames@;
        if frame.header.version.inner != CURRENT_VERSION {
            return Err(ServerError::WrongVersion);
        }
        match frame.header.kind {
            Kind::PING => {
                self.frames = Vec::new();
                proof {
                    assert(self@ =~= Seq::<FrameView>::empty());
                }
                Ok(Some(CmdServerMessage::PING))
            },
            Kind::PONG => {
                self.frames = Vec::new();
                proof {
                    assert(self@ =~= Seq::<FrameView>::empty());
                }
                Ok(Some(CmdServerMessage::PONG))
            },
            Kind::CMD | Kind::RAFT => {
                let last = frame.is_last();
                let ghost fv = frame@;
                self.frames.push(frame);
                proof {
                    assert(spec_frame_views(self.frames@) =~= spec_frame_views(f0).push(fv));
                }
                if last {
                    let command = parse_cmd(&self.frames);
                    self.frames = Vec::new();
                    proof {
                        assert(self@ =~= Seq::<FrameView>::empty());
                    }
                    Ok(Some(CmdServerMessage::CMD(command)))
                } else {
                    Ok(Option::None)
                }
            },
            Kind::ERROR => {
                let last = frame.is_last();
                let ghost fv = frame@;
                self.frames.push(frame);
                proof {
                    assert(spec_frame_views(self.frames@) =~= spec_frame_views(f0).push(fv));
                }
                if last {
                    let message = parse_error_message(&self.frames);
                    self.frames = Vec::new();
                    proof {
                        assert(self@ =~= Seq::<FrameView>::empty());
                    }
                    Ok(Some(CmdServerMessage::ERROR(message)))
                } else {
                    Ok(Option::None)
                }
            },
            Kind::UNKNOWN => Ok(Option::None),
        }
    }
}

/// What the server does in response to one inbound message.
pub enum ServerAction {
    /// Reply on the same session with this frame.
    ReplyPong(Frame),
    /// Note the reply to an earlier probe; nothing further.
    LogPong,
    /// Hand a consensus envelope to the local consensus loop.
    PostRaft(Command),
    /// Run the command against the local store.
    Execute(Command),
    /// Note a peer's error report; nothing further.
    LogError(String),
}

/// Decide what to do with one inbound message: a probe is answered with
/// exactly one terminal, empty PONG frame; a consensus envelope goes to
/// the consensus loop; any other command runs locally; replies and error
/// reports are only noted.
pub fn handle_cmd_server_message(msg: CmdServerMessage) -> (r: ServerAction)
    ensures
        match msg {
            CmdServerMessage::PING => r matches ServerAction::ReplyPong(f) && f@.kind == Kind::PONG
                && f@.head == Head::FIN && f@.length == 0 && f@.payload.len() == 0 && f@.version
                == CURRENT_VERSION,
            CmdServerMessage::PONG => r is LogPong,
            CmdServerMessage::CMD(c) => if spec_view_id(c@) == CommandId::Raft {
                r matches ServerAction::PostRaft(c2) && c2 == c
            } else {
                r matches ServerAction::Execute(c2) && c2 == c
            },
            CmdServerMessage::ERROR(m) => r matches ServerAction::LogError(m2) && m2 == m,
        },
{
    match msg {
        CmdServerMessage::PING => ServerAction::ReplyPong(Frame::new_pong()),
        CmdServerMessage::PONG => ServerAction::LogPong,
        CmdServerMessage::CMD(command) => {
            let raft = {
                let inner = command.inner_ref();
                proof {
                    lemma_cmd_id_matches_view(*inner);
                }
                crate::command::ExecutableCommand::is_raft_cmd(inner)
            };
            if raft {
                ServerAction::PostRaft(command)
            } else {
                ServerAction::Execute(command)
            }
        },
        CmdServerMessage::ERROR(message) => ServerAction::LogError(message),
    }
}

/// Whether a finished write attempt should end the session: only a failed
/// one does.
pub fn post_send_message(result: Result<usize, TransportError>) -> (r: bool)
    ensures
        r == (result is Err),
{
    match result {
        Ok(_) => false,
        Err(_) => true,
    }
}

/// The frames of a best-effort error reply: the text, UTF-8 encoded, as an
/// ERROR message.
pub fn error_reply_frames(msg: &String) -> (r: Vec<Frame>)
    ensures
        r@.len() >= 1,
        forall|i: int|
            0 <= i < r@.len() ==> (#[trigger] r@[i])@.kind == Kind::ERROR && r@[i]@.wf(),
        r@.last()@.head == Head::FIN,
        r@.last()@.length == vstd::utf8::encode_utf8(msg@).len() - 255 * (r@.len() - 1),
        spec_payload_concat(spec_frame_views(r@)) == vstd::utf8::encode_utf8(msg@),
{
    build_frames(Kind::ERROR, msg.as_str().as_bytes())
}

} // verus!
