//! The plot descriptor: decoding the self-describing filename and validating
//! the geometry it implies against the file's physical size.

use vstd::prelude::*;
use crate::decimal::{
    dec_str,
    i64_str_val,
    parse_i64,
    parse_u64,
    u64_str_val,
    u64_to_string,
    valid_i64_str,
    valid_u64_str,
};
use crate::convert::{convert_image, poc_swapped, spec_block_size};
use crate::geometry::{NONCE_SIZE, SCOOPS_IN_NONCE, SCOOP_PAIRS, SCOOP_SIZE};
use crate::name::{split_char, split_on};

verus! {

/// Why a plot name or its geometry is rejected.
#[derive(Clone, Copy, PartialEq, Eq, Structural, Debug)]
pub enum PlotError {
    /// The name has fewer than four `_`-separated fields.
    WrongFormat,
    /// The account id field does not parse as an unsigned 64-bit integer.
    BadId,
    /// The nonce offset field does not parse as an unsigned 64-bit integer.
    BadOffset,
    /// The nonce count field does not parse as a signed 64-bit integer.
    BadNonces,
    /// The stagger field does not parse as a signed 64-bit integer.
    BadStagger,
    /// The stagger differs from the nonce count: not an optimized plot.
    NotOptimized,
    /// The physical file size differs from `nonces * NONCE_SIZE`.
    SizeMismatch,
}

/// The four integer fields decoded from a plot name, still unchecked against
/// the file on disk.
#[derive(Clone, Copy, PartialEq, Eq, Structural, Debug)]
pub struct PlotName {
    /// Account id: first field.
    pub id: u64,
    /// Starting nonce index: second field.
    pub offset: u64,
    /// Number of nonces in the plot: third field.
    pub nonces: i64,
    /// Declared grouping size: fourth field.
    pub stagger: i64,
}

/// Whether the `_`-separated fields of a name decode into the four integer
/// fields of a plot name.
pub open spec fn name_decodes(parts: Seq<Seq<char>>) -> bool {
    &&& parts.len() >= 4
    &&& valid_u64_str(parts[0])
    &&& valid_u64_str(parts[1])
    &&& valid_i64_str(parts[2])
    &&& valid_i64_str(parts[3])
}

impl PlotName {
    /// The decoded fields agree with the given field texts.
    pub open spec fn decodes_from(self, parts: Seq<Seq<char>>) -> bool {
        &&& name_decodes(parts)
        &&& self.id == u64_str_val(parts[0])
        &&& self.offset == u64_str_val(parts[1])
        &&& self.nonces == i64_str_val(parts[2])
        &&& self.stagger == i64_str_val(parts[3])
    }

    /// Decodes a plot name: splits on `_` and parses the first four fields.
    /// Purely textual; nothing on disk is consulted, so a malformed name is
    /// rejected before any file access.
    pub fn parse(name: &str) -> (r: Result<PlotName, PlotError>)
        ensures
            ({
                let parts = split_on(name@, '_');
                match r {
                    Ok(pn) => pn.decodes_from(parts),
                    Err(e) => match e {
                        PlotError::WrongFormat => parts.len() < 4,
                        PlotError::BadId => parts.len() >= 4 && !valid_u64_str(parts[0]),
                        PlotError::BadOffset => parts.len() >= 4 && valid_u64_str(parts[0])
                            && !valid_u64_str(parts[1]),
                        PlotError::BadNonces => parts.len() >= 4 && valid_u64_str(parts[0])
                            && valid_u64_str(parts[1]) && !valid_i64_str(parts[2]),
                        PlotError::BadStagger => parts.len() >= 4 && valid_u64_str(parts[0])
                            && valid_u64_str(parts[1]) && valid_i64_str(parts[2])
                            && !valid_i64_str(parts[3]),
                        _ => false,
                    },
                }
            }),
            r is Ok <==> name_decodes(split_on(name@, '_')),
    {
        let parts = split_char(name, '_');
        proof {
            assert(parts@.len() == split_on(name@, '_').len());
        }
        if parts.len() < 4 {
            return Err(PlotError::WrongFormat);
        }
        proof {
            assert(parts.deep_view()[0] == split_on(name@, '_')[0]);
            assert(parts.deep_view()[1] == split_on(name@, '_')[1]);
            assert(parts.deep_view()[2] == split_on(name@, '_')[2]);
            assert(parts.deep_view()[3] == split_on(name@, '_')[3]);
        }
        let id = match parse_u64(parts[0].as_str()) {
            Some(v) => v,
            None => {
                return Err(PlotError::BadId);
            },
        };
        let offset = match parse_u64(parts[1].as_str()) {
            Some(v) => v,
            None => {
                return Err(PlotError::BadOffset);
            },
        };
        let nonces = match parse_i64(parts[2].as_str()) {
            Some(v) => v,
            None => {
                return Err(PlotError::BadNonces);
            },
        };
        let stagger = match parse_i64(parts[3].as_str()) {
            Some(v) => v,
            None => {
                return Err(PlotError::BadStagger);
            },
        };
        Ok(PlotName { id, offset, nonces, stagger })
    }
}

/// Identity and geometry of one validated plot file.
#[derive(Clone, Copy, PartialEq, Eq, Structural, Debug)]
pub struct Plot {
    /// Account id, carried through unchanged.
    pub id: u64,
    /// Starting nonce index, carried through unchanged.
    pub offset: u64,
    /// Number of nonces physically present.
    pub nonces: i64,
    /// Physical size of the file in bytes.
    pub size: u64,
}

impl Plot {
    /// Validity: the size on disk is exactly the size the name implies.
    pub open spec fn wf(self) -> bool {
        &&& self.nonces >= 0
        &&& self.size == self.nonces * (NONCE_SIZE as int)
    }

    /// Whether a decoded name and a physical size make a valid optimized
    /// plot: staggering must equal the full nonce count, and the size on
    /// disk must equal `nonces * NONCE_SIZE` exactly.
    pub open spec fn accepts(pn: PlotName, file_size: u64) -> bool {
        &&& pn.nonces == pn.stagger
        &&& file_size == pn.nonces * (NONCE_SIZE as int)
    }

    /// Validates a decoded name against the physical file size and builds
    /// the descriptor. Rejects non-optimized plots (`nonces != stagger`)
    /// and any size that differs from the geometry the name implies.
    pub fn from_name(pn: PlotName, file_size: u64) -> (r: Result<Plot, PlotError>)
        ensures
            r is Ok <==> Self::accepts(pn, file_size),
            match r {
                Ok(p) => {
                    &&& p.wf()
                    &&& p.id == pn.id
                    &&& p.offset == pn.offset
                    &&& p.nonces == pn.nonces
                    &&& p.size == file_size
                },
                Err(e) => match e {
                    PlotError::NotOptimized => pn.nonces != pn.stagger,
                    PlotError::SizeMismatch => pn.nonces == pn.stagger && file_size != pn.nonces
                        * (NONCE_SIZE as int),
                    _ => false,
                },
            },
    {
        if pn.nonces != pn.stagger {
            return Err(PlotError::NotOptimized);
        }
        if pn.nonces < 0 {
            proof {
                assert(pn.nonces * (NONCE_SIZE as int) < 0) by (nonlinear_arith)
                    requires
                        pn.nonces < 0,
                ;
            }
            return Err(PlotError::SizeMismatch);
        }
        if (pn.nonces as u64) > u64::MAX / NONCE_SIZE {
            proof {
                assert(pn.nonces * (NONCE_SIZE as int) > u64::MAX) by (nonlinear_arith)
                    requires
                        pn.nonces > u64::MAX / NONCE_SIZE >= 0,
                ;
            }
            return Err(PlotError::SizeMismatch);
        }
        let expected: u64 = (pn.nonces as u64) * NONCE_SIZE;
        if file_size != expected {
            return Err(PlotError::SizeMismatch);
        }
        Ok(Plot { id: pn.id, offset: pn.offset, nonces: pn.nonces, size: file_size })
    }

    /// Decodes a plot name and validates it against the physical file size,
    /// in one step.
    pub fn new(name: &str, file_size: u64) -> (r: Result<Plot, PlotError>)
        ensures
            ({
                let parts = split_on(name@, '_');
                match r {
                    Ok(p) => {
                        &&& name_decodes(parts)
                        &&& p.wf()
                        &&& p.id == u64_str_val(parts[0])
                        &&& p.offset == u64_str_val(parts[1])
                        &&& p.nonces == i64_str_val(parts[2])
                        &&& i64_str_val(parts[2]) == i64_str_val(parts[3])
                        &&& p.size == file_size
                        &&& file_size == p.nonces * (NONCE_SIZE as int)
                    },
                    Err(e) => match e {
                        PlotError::WrongFormat => parts.len() < 4,
                        PlotError::BadId => parts.len() >= 4 && !valid_u64_str(parts[0]),
                        PlotError::BadOffset => parts.len() >= 4 && valid_u64_str(parts[0])
                            && !valid_u64_str(parts[1]),
                        PlotError::BadNonces => parts.len() >= 4 && valid_u64_str(parts[0])
                            && valid_u64_str(parts[1]) && !valid_i64_str(parts[2]),
                        PlotError::BadStagger => parts.len() >= 4 && valid_u64_str(parts[0])
                            && valid_u64_str(parts[1]) && valid_i64_str(parts[2])
                            && !valid_i64_str(parts[3]),
                        PlotError::NotOptimized => name_decodes(parts) && i64_str_val(parts[2])
                            != i64_str_val(parts[3]),
                        PlotError::SizeMismatch => name_decodes(parts) && i64_str_val(parts[2])
                            == i64_str_val(parts[3]) && file_size != i64_str_val(parts[2]) * (
                        NONCE_SIZE as int),
                    },
                }
            }),
    {
        let pn = match PlotName::parse(name) {
            Ok(pn) => pn,
            Err(e) => {
                return Err(e);
            },
        };
        Plot::from_name(pn, file_size)
    }

    /// Byte length of one scoop block of this plot: one scoop record for
    /// every nonce. The file is exactly `SCOOPS_IN_NONCE` such blocks.
    pub fn block_size(&self) -> (r: u64)
        requires
            self.wf(),
        ensures
            r == spec_block_size(self.nonces as int),
            r * (SCOOPS_IN_NONCE as int) == self.size,
    {
        proof {
            assert(self.nonces * (SCOOP_SIZE as int) * (SCOOPS_IN_NONCE as int) == self.nonces
                * (NONCE_SIZE as int) && self.nonces * (SCOOP_SIZE as int) <= self.nonces * (
            NONCE_SIZE as int)) by (nonlinear_arith)
                requires
                    self.nonces >= 0,
            ;
        }
        (self.nonces as u64) * SCOOP_SIZE
    }

    /// Absolute byte offset of the forward scoop block of conversion step
    /// `s`: `s` blocks from the start of the file.
    pub fn forward_offset(&self, s: u64) -> (r: u64)
        requires
            self.wf(),
            s < SCOOP_PAIRS,
        ensures
            r == s * spec_block_size(self.nonces as int),
            r + spec_block_size(self.nonces as int) <= self.size,
    {
        let bs = self.block_size();
        proof {
            assert((s + 1) * bs <= 4096 * bs && s * bs + bs == (s + 1) * bs) by (nonlinear_arith)
                requires
                    0 <= s <= 2047,
                    bs >= 0,
            ;
        }
        s * bs
    }

    /// Absolute byte offset of the mirrored scoop block of conversion step
    /// `s`: `s + 1` blocks before the end of the file, which is block
    /// `SCOOPS_IN_NONCE - 1 - s` counted from the start.
    pub fn mirror_offset(&self, s: u64) -> (r: u64)
        requires
            self.wf(),
            s < SCOOP_PAIRS,
        ensures
            r == self.size - (s + 1) * spec_block_size(self.nonces as int),
            r == ((SCOOPS_IN_NONCE as int) - 1 - s) * spec_block_size(self.nonces as int),
            r + spec_block_size(self.nonces as int) <= self.size,
    {
        let bs = self.block_size();
        proof {
            assert((s + 1) * bs <= 4096 * bs && (4096 * bs - (s + 1) * bs) == (4095 - s as int)
                * bs && (4095 - s as int) * bs + bs == (4096 - s as int) * bs && (4096 - s as int)
                * bs <= 4096 * bs) by (nonlinear_arith)
                requires
                    0 <= s <= 2047,
                    bs >= 0,
            ;
        }
        self.size - (s + 1) * bs
    }

    /// Runs the scoop-swap transform over a whole in-memory image of this
    /// plot's bytes.
    pub fn convert(&self, data: &mut Vec<u8>)
        requires
            self.wf(),
            old(data)@.len() == self.size,
        ensures
            final(data)@ == poc_swapped(old(data)@, self.nonces as int),
    {
        let dlen: usize = data.len();
        proof {
            assert(self.nonces <= self.nonces * (NONCE_SIZE as int)) by (nonlinear_arith)
                requires
                    self.nonces >= 0,
            ;
            assert(self.nonces as int <= dlen as int);
            assert((self.nonces as usize) as int == self.nonces as int);
        }
        convert_image(data, self.nonces as usize);
    }

    /// Renders the canonical name of the converted plot:
    /// `"{id}_{offset}_{nonces}"`, the stagger field elided since the result
    /// is one contiguous group.
    pub fn poc2_name(&self) -> (r: String)
        requires
            self.nonces >= 0,
        ensures
            r@ == dec_str(self.id as nat) + seq!['_'] + dec_str(self.offset as nat) + seq!['_']
                + dec_str(self.nonces as nat),
    {
        let mut s = u64_to_string(self.id);
        let underscore = underscore_string();
        s.append(underscore.as_str());
        let offs = u64_to_string(self.offset);
        s.append(offs.as_str());
        let underscore2 = underscore_string();
        s.append(underscore2.as_str());
        let nonces = u64_to_string(self.nonces as u64);
        s.append(nonces.as_str());
        s
    }
}

/// How one conversion run performs its writes.
#[derive(Clone, Copy, PartialEq, Eq, Structural, Debug)]
pub enum IoMode {
    /// Read and write the source file through one handle, then rename it to
    /// the canonical converted name.
    InPlace,
    /// Stream into a freshly preallocated file in the output directory; the
    /// source is left untouched.
    CopyOnWrite,
}

/// Selects the write strategy, once per run: copy-on-write exactly when an
/// output directory was supplied.
pub fn io_mode(has_output_dir: bool) -> (r: IoMode)
    ensures
        r == IoMode::CopyOnWrite <==> has_output_dir,
{
    if has_output_dir {
        IoMode::CopyOnWrite
    } else {
        IoMode::InPlace
    }
}

/// Every descriptor that validation lets through carries a physical size of
/// exactly `nonces * NONCE_SIZE` bytes; an input violating that is rejected
/// before any conversion work, with nothing on disk touched.
pub proof fn lemma_valid_plot_size(p: Plot)
    requires
        p.wf(),
    ensures
        p.size == p.nonces * (NONCE_SIZE as int),
{
}

/// The one-character string `"_"`.
fn underscore_string() -> (r: String)
    ensures
        r@ == seq!['_'],
{
    proof {
        reveal_strlit("_");
        assert("_"@ =~= seq!['_']);
    }
    "_".to_owned()
}

} // verus!
