use vstd::prelude::*;
use crate::albastream::{Error, ErrorKind};
use crate::command_format::{CommandV, command_ok, encode_command, command_view, commands_view, lemma_commands_view};
use crate::commands::Commands;
use crate::dynamic_int::{DynamicInteger, spec_varint};
use crate::types::{prefixed, push_prefixed};
use crate::wire::encode_many;

verus! {

pub open spec fn framed_command() -> spec_fn(CommandV) -> Seq<u8> {
    |c: CommandV| prefixed(encode_command(c))
}

/// A message: the command count, then each compiled command behind its
/// length.
pub open spec fn encode_message(cs: Seq<CommandV>) -> Seq<u8> {
    spec_varint(cs.len() as u64) + encode_many(cs, framed_command())
}

/// Every command of a message respects the data model's limits.
pub open spec fn message_ok(cs: Seq<CommandV>) -> bool {
    forall|i: int| 0 <= i < cs.len() ==> command_ok(#[trigger] cs[i])
}

/// Compiles the commands into one message, each framed by its length.
pub fn compile_message(commands: &Vec<Commands>) -> (r: Result<Vec<u8>, Error>)
    ensures
        ({
            let cs = commands_view(commands@, commands@.len());
            match r {
                Ok(b) => message_ok(cs) && b@ == encode_message(cs),
                Err(e) => !message_ok(cs) && e.spec_kind() == ErrorKind::InvalidInput,
            }
        }),
{
    let ghost cs = commands_view(commands@, commands@.len());
    proof {
        lemma_commands_view(commands@, commands@.len());
    }
    let mut out = DynamicInteger::from_usize(commands.len()).compile();
    let ghost head = out@;
    let mut i: usize = 0;
    while i < commands.len()
        invariant
            0 <= i <= commands@.len(),
            cs == commands_view(commands@, commands@.len()),
            cs.len() == commands@.len(),
            forall|k: int| 0 <= k < cs.len() ==> #[trigger] cs[k] == command_view(commands@[k]),
            forall|k: int| 0 <= k < i ==> command_ok(#[trigger] cs[k]),
            head == spec_varint(commands@.len() as u64),
            out@ == head + encode_many(cs.take(i as int), framed_command()),
        decreases commands@.len() - i,
    {
        let b = match commands[i].compile() {
            Ok(b) => b,
            Err(e) => {
                proof {
                    assert(cs[i as int] == command_view(commands@[i as int]));
                    assert(!command_ok(cs[i as int]));
                }
                return Err(e);
            },
        };
        push_prefixed(&mut out, b.as_slice());
        proof {
            assert(cs.take(i + 1).drop_last() =~= cs.take(i as int));
            assert(cs.take(i + 1).last() == cs[i as int]);
        }
        i = i + 1;
    }
    proof {
        assert(cs.take(i as int) =~= cs);
    }
    Ok(out)
}

} // verus!
