use vstd::prelude::*;

verus! {

/// The bytes of the `.exit` meta-command.
pub open spec fn exit_kw() -> Seq<u8> {
    seq![46u8, 101u8, 120u8, 105u8, 116u8]
}

/// The bytes of the `.q` meta-command.
pub open spec fn q_kw() -> Seq<u8> {
    seq![46u8, 113u8]
}

/// The bytes of the `.tables` meta-command.
pub open spec fn tables_kw() -> Seq<u8> {
    seq![46u8, 116u8, 97u8, 98u8, 108u8, 101u8, 115u8]
}

/// A classified meta-command line.
#[derive(Clone, Copy, PartialEq, Eq, Structural, Debug)]
pub enum MetaCmd {
    /// `.exit` or `.q`: flush the backing store and end the session.
    Exit,
    /// `.tables`: acknowledged; currently changes nothing.
    Tables,
    /// Any other dot-prefixed line.
    Unrecognized,
}

/// Classifies a dot-prefixed line: `.exit` and `.q` end the session,
/// `.tables` is acknowledged, everything else is unrecognized.
pub fn do_meta_cmd(line: &[u8]) -> (m: MetaCmd)
    ensures
        m == MetaCmd::Exit <==> (line@ == exit_kw() || line@ == q_kw()),
        m == MetaCmd::Tables <==> line@ == tables_kw(),
{
    let exit = line.len() == 5 && line[0] == 46 && line[1] == 101 && line[2] == 120 && line[3]
        == 105 && line[4] == 116;
    proof {
        if exit {
            assert(line@ =~= exit_kw());
        }
    }
    if exit {
        return MetaCmd::Exit;
    }
    let q = line.len() == 2 && line[0] == 46 && line[1] == 113;
    proof {
        if q {
            assert(line@ =~= q_kw());
        }
    }
    if q {
        return MetaCmd::Exit;
    }
    let tables = line.len() == 7 && line[0] == 46 && line[1] == 116 && line[2] == 97 && line[3]
        == 98 && line[4] == 108 && line[5] == 101 && line[6] == 115;
    proof {
        if tables {
            assert(line@ =~= tables_kw());
        }
    }
    if tables {
        return MetaCmd::Tables;
    }
    MetaCmd::Unrecognized
}

} // verus!
