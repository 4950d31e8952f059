//! Binary fidelity of a whole file: reading a file as the parser asks and writing back every
//! message it hands out gives the bytes read, byte for byte.
use vstd::bytes::*;
use vstd::prelude::*;

use crate::encode_msg::message_bytes;
use crate::fidelity::{
    data_canonical, definition_canonical, header_supply_fidelity, size_fidelity, subscriptions_keyed,
    supply_fidelity, supply_keeps_subscriptions_keyed,
};
use crate::messages::type_of_byte;
use crate::model::msg::SpecMessage;
use crate::parser::{Pending, State};
use crate::errors::SpecError;
use crate::steps::{ParserModel, initial_model, supply_step, want_step};

verus! {

/// The bytes of the message being read that the parser holds as state: its size once read, then
/// its type byte.
pub open spec fn pending_bytes(m: ParserModel) -> Seq<u8> {
    match m.pending {
        Pending::Size => Seq::empty(),
        Pending::Type(n) => spec_u16_to_le_bytes(n),
        Pending::Body(n, tb) => spec_u16_to_le_bytes(n) + seq![tb],
    }
}

/// The bytes the encoder writes for what a round hands out: nothing, or a message.
pub open spec fn out_bytes(out: Option<SpecMessage>) -> Seq<u8> {
    match out {
        None => Seq::empty(),
        Some(msg) => message_bytes(msg),
    }
}

/// One round of reading `file`: the parser says how many bytes it wants, is handed that many
/// from the front of `file` (what is left, where fewer are), and answers. `None` once it wants
/// nothing more; otherwise the new model, how many bytes it took, and its answer.
#[verifier::opaque]
pub open spec fn read_round(m: ParserModel, file: Seq<u8>) -> Option<
    (ParserModel, nat, Result<Option<SpecMessage>, SpecError>),
> {
    match want_step(m).1 {
        None => None,
        Some(n) => {
            let chunk = if n <= file.len() {
                file.take(n as int)
            } else {
                file
            };
            let (m1, r) = supply_step(want_step(m).0, chunk);
            Some((m1, chunk.len(), r))
        },
    }
}

/// `k` rounds of reading `file`: the model after them, how many bytes they took, and the bytes
/// the encoder writes for what they handed out. `None` when a round answers with an error, or
/// the parser wants nothing more before `k` rounds.
pub open spec fn run_rounds(m: ParserModel, file: Seq<u8>, k: nat) -> Option<(ParserModel, nat, Seq<u8>)>
    decreases k,
{
    if k == 0 {
        Some((m, 0, Seq::empty()))
    } else {
        match read_round(m, file) {
            Some((m1, used, Ok(out))) => match run_rounds(m1, file.skip(used as int), (k - 1) as nat) {
                Some((m2, used2, written)) => Some((m2, used + used2, out_bytes(out) + written)),
                None => None,
            },
            _ => None,
        }
    }
}

/// Whether the body a round reads, if it reads one, is written canonically (see
/// `definition_canonical` and `data_canonical`).
pub open spec fn round_canonical(m: ParserModel, file: Seq<u8>) -> bool {
    match m.pending {
        Pending::Body(n, tb) => n <= file.len() ==> {
            &&& m.state == State::DEFINITIONS ==> definition_canonical(m, type_of_byte(tb), file.take(n as int))
            &&& m.state == State::DATA ==> data_canonical(m, type_of_byte(tb), file.take(n as int))
        },
        _ => true,
    }
}

/// Whether every body that `k` rounds of reading `file` read is written canonically.
pub open spec fn rounds_canonical(m: ParserModel, file: Seq<u8>, k: nat) -> bool
    decreases k,
{
    if k == 0 {
        true
    } else {
        round_canonical(m, file) && match read_round(m, file) {
            Some((m1, used, Ok(_))) => rounds_canonical(m1, file.skip(used as int), (k - 1) as nat),
            _ => true,
        }
    }
}

/// A parser whose file is over reads nothing more.
proof fn lemma_eof_round(m: ParserModel, file: Seq<u8>)
    requires
        m.state == State::EOF,
    ensures
        read_round(m, file) is None,
{
    reveal(read_round);
}

/// One round: what the parser held of the message being read, then the bytes it takes, are
/// what the encoder writes for its answer, then what it holds afterwards, unless the file ended
/// where a message would start.
proof fn lemma_round_fidelity(m: ParserModel, file: Seq<u8>)
    requires
        m.include_header,
        m.include_timestamp,
        m.include_padding,
        subscriptions_keyed(m),
        m.state == State::HEADER || m.state == State::DEFINITIONS || m.state == State::DATA,
        m.state == State::HEADER ==> m.pending == Pending::Size,
        round_canonical(m, file),
        read_round(m, file) matches Some((_, _, Ok(_))),
    ensures
        ({
            let (m1, used, r) = read_round(m, file)->Some_0;
            &&& used <= file.len()
            &&& m1.state != State::EOF ==> pending_bytes(m) + file.take(used as int) == out_bytes(
                r->Ok_0,
            ) + pending_bytes(m1)
            &&& m1.include_header && m1.include_timestamp && m1.include_padding
            &&& subscriptions_keyed(m1)
            &&& m1.state == State::DEFINITIONS || m1.state == State::DATA || m1.state == State::EOF
        }),
{
    reveal(read_round);
    let (m1, used, r) = read_round(m, file)->Some_0;
    let n = want_step(m).1->Some_0;
    assert(want_step(m).0 == m);
    let chunk = if n <= file.len() { file.take(n as int) } else { file };
    assert(supply_step(m, chunk) == (m1, r));
    assert(used == chunk.len());
    assert(file.take(used as int) =~= chunk);
    supply_keeps_subscriptions_keyed(m, chunk);
    match m.state {
        State::HEADER => {
            header_supply_fidelity(m, chunk);
            assert(chunk.take(16) =~= chunk);
            assert(pending_bytes(m) =~= Seq::<u8>::empty());
            assert(pending_bytes(m1) =~= Seq::<u8>::empty());
            assert(out_bytes(r->Ok_0) == chunk);
            assert(pending_bytes(m) + chunk =~= out_bytes(r->Ok_0) + pending_bytes(m1));
        },
        _ => match m.pending {
            Pending::Size => {
                if chunk.len() >= 2 {
                    size_fidelity(chunk);
                    assert(chunk.take(2) =~= chunk);
                    assert(pending_bytes(m1) == chunk);
                    assert(pending_bytes(m) + chunk =~= out_bytes(r->Ok_0) + pending_bytes(m1));
                }
            },
            Pending::Type(s) => {
                assert(chunk =~= seq![chunk[0]]);
                assert(pending_bytes(m) + chunk =~= out_bytes(r->Ok_0) + pending_bytes(m1));
            },
            Pending::Body(s, tb) => {
                assert(chunk.len() == s);
                assert(chunk.take(s as int) =~= chunk);
                supply_fidelity(m, chunk);
                assert(out_bytes(r->Ok_0) == spec_u16_to_le_bytes(s) + seq![tb] + chunk);
                assert(pending_bytes(m) + chunk =~= out_bytes(r->Ok_0) + pending_bytes(m1));
            },
        },
    }
}

/// `k` rounds: what the parser held of the message being read, then the bytes the rounds take,
/// are what the encoder writes for their answers, then what the parser holds afterwards.
proof fn lemma_rounds_fidelity(m: ParserModel, file: Seq<u8>, k: nat)
    requires
        m.include_header,
        m.include_timestamp,
        m.include_padding,
        subscriptions_keyed(m),
        m.state == State::HEADER || m.state == State::DEFINITIONS || m.state == State::DATA,
        m.state == State::HEADER ==> m.pending == Pending::Size,
        rounds_canonical(m, file, k),
        run_rounds(m, file, k) matches Some((m2, _, _)) && (m2.state == State::DEFINITIONS
            || m2.state == State::DATA),
    ensures
        ({
            let (m2, used, written) = run_rounds(m, file, k)->Some_0;
            &&& used <= file.len()
            &&& pending_bytes(m) + file.take(used as int) == written + pending_bytes(m2)
        }),
    decreases k,
{
    if k > 0 {
        lemma_round_fidelity(m, file);
        let (m1, used1, r) = read_round(m, file)->Some_0;
        let rest = file.skip(used1 as int);
        if m1.state == State::EOF {
            lemma_eof_round(m1, rest);
            assert(false);
        }
        lemma_rounds_fidelity(m1, rest, (k - 1) as nat);
        let (m2, used2, written2) = run_rounds(m1, rest, (k - 1) as nat)->Some_0;
        let a = pending_bytes(m);
        let out1 = out_bytes(r->Ok_0);
        let t1 = file.take(used1 as int);
        let t2 = rest.take(used2 as int);
        assert(file.take((used1 + used2) as int) =~= t1 + t2);
        assert(a + t1 == out1 + pending_bytes(m1));
        assert(pending_bytes(m1) + t2 == written2 + pending_bytes(m2));
        assert(a + (t1 + t2) =~= (a + t1) + t2);
        assert((out1 + pending_bytes(m1)) + t2 =~= out1 + (pending_bytes(m1) + t2));
        assert(out1 + (written2 + pending_bytes(m2)) =~= (out1 + written2) + pending_bytes(m2));
    }
}

/// The model of a parser built to hand out the file header and to keep timestamps and padding
/// in logged data, before it has read anything.
pub open spec fn faithful_start() -> ParserModel {
    ParserModel {
        include_header: true,
        include_timestamp: true,
        include_padding: true,
        ..initial_model()
    }
}

/// Binary fidelity of a file: a parser that hands out the file header and keeps timestamps and
/// padding, read for `k` rounds as it asks, hands out messages whose encodings, one after the
/// other, are the bytes it took from the file, whenever it stops between two messages and
/// every body it read is written canonically. When those bytes are all of `file`, the file
/// is written back byte for byte.
pub proof fn file_fidelity(file: Seq<u8>, k: nat)
    requires
        rounds_canonical(faithful_start(), file, k),
        run_rounds(faithful_start(), file, k) matches Some((m2, _, _)) && (m2.state
            == State::DEFINITIONS || m2.state == State::DATA) && m2.pending == Pending::Size,
    ensures
        ({
            let (_, used, written) = run_rounds(faithful_start(), file, k)->Some_0;
            &&& used <= file.len()
            &&& written == file.take(used as int)
        }),
{
    let m = faithful_start();
    assert(subscriptions_keyed(m));
    lemma_rounds_fidelity(m, file, k);
    let (m2, used, written) = run_rounds(m, file, k)->Some_0;
    assert(pending_bytes(m) + file.take(used as int) =~= file.take(used as int));
    assert(written + pending_bytes(m2) =~= written);
}

} // verus!
