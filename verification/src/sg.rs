//! The SCSI generic request header (`sg_io_hdr_t`), with the host's buffers
//! held as owned byte vectors.
//!
//! A `None` buffer stands for a null pointer; a `Some` buffer holds the bytes the
//! host's pointer designates (at least `dxfer_len`, `cmd_len` or `mx_sb_len`
//! bytes, the kernel's guarantee, stated as `wf`).

use vstd::prelude::*;

verus! {

/// `sg_io_hdr_t` from `<scsi/sg.h>`, with its three buffers held by value.
pub struct SgIoHdr {
    pub interface_id: i32,
    pub dxfer_direction: i32,
    pub cmd_len: u8,
    pub mx_sb_len: u8,
    pub iovec_count: u16,
    pub dxfer_len: u32,
    /// Data transfer buffer (`dxferp`).
    pub dxferp: Option<Vec<u8>>,
    /// The command descriptor block (`cmdp`).
    pub cmdp: Option<Vec<u8>>,
    /// The sense buffer (`sbp`).
    pub sbp: Option<Vec<u8>>,
    pub timeout: u32,
    pub flags: u32,
    pub pack_id: i32,
    pub status: u8,
    pub masked_status: u8,
    pub msg_status: u8,
    pub sb_len_wr: u8,
    pub host_status: u16,
    pub driver_status: u16,
    pub resid: i32,
    pub duration: u32,
    pub info: u32,
}

/// Length of fixed-format sense data.
pub const SENSE_LEN: u8 = 18;

/// The bytes of an 18-byte fixed-format sense block ("current error").
pub open spec fn fixed_sense_byte(i: int, key: u8, asc: u8, ascq: u8) -> u8 {
    if i == 0 {
        0x70
    } else if i == 2 {
        key
    } else if i == 7 {
        10
    } else if i == 12 {
        asc
    } else if i == 13 {
        ascq
    } else {
        0
    }
}

/// The sense buffer after a CHECK CONDITION was recorded into its first
/// `mx` bytes.
pub open spec fn sense_written(old: Seq<u8>, mx: int, key: u8, asc: u8, ascq: u8) -> Seq<u8> {
    Seq::new(old.len(), |i: int| if i < mx { fixed_sense_byte(i, key, asc, ascq) } else { old[i] })
}

/// Number of response bytes that reach the host: the response, truncated to
/// the host's transfer length.
pub open spec fn transferred(data_len: int, dxfer_len: u32) -> int {
    if data_len < dxfer_len { data_len } else { dxfer_len as int }
}

/// The host buffer after a response was written: the response first, then
/// zeros up to `dxfer_len`, then whatever lay beyond.
pub open spec fn buffer_written(old: Seq<u8>, data: Seq<u8>, dxfer_len: u32) -> Seq<u8> {
    let n = transferred(data.len() as int, dxfer_len);
    Seq::new(
        old.len(),
        |i: int|
            if i < n {
                data[i]
            } else if i < dxfer_len {
                0u8
            } else {
                old[i]
            },
    )
}

/// `dxfer_len` as a residual, saturated at `i32::MAX`.
pub open spec fn capped_len(dxfer_len: u32) -> int {
    if dxfer_len <= i32::MAX { dxfer_len as int } else { i32::MAX as int }
}

/// `a - b` saturated to the range of `i32`.
pub open spec fn saturate_i32(v: int) -> i32 {
    if v > i32::MAX {
        i32::MAX
    } else if v < i32::MIN {
        i32::MIN
    } else {
        v as i32
    }
}

/// The residual reported after `n` bytes reached the host: the declared
/// length (capped at `i32::MAX`) minus `n` taken as an `i32`, saturating.
pub open spec fn residual(dxfer_len: u32, n: int) -> i32 {
    saturate_i32(capped_len(dxfer_len) - (n as i32) as int)
}

impl SgIoHdr {
    /// The kernel's guarantee: each non-null buffer is at least as long as
    /// the length the header declares for it.
    pub open spec fn wf(&self) -> bool {
        &&& (self.dxferp matches Some(b) ==> b@.len() >= self.dxfer_len)
        &&& (self.cmdp matches Some(b) ==> b@.len() >= self.cmd_len)
        &&& (self.sbp matches Some(b) ==> b@.len() >= self.mx_sb_len)
    }

    /// CDB byte `idx`, or 0 when there is no such byte.
    pub open spec fn spec_cdb(&self, idx: int) -> u8 {
        match self.cmdp {
            Some(b) => if 0 <= idx < self.cmd_len { b@[idx] } else { 0 },
            None => 0,
        }
    }

    /// The header with every output status field reset (GOOD).
    pub open spec fn cleared(self) -> SgIoHdr {
        SgIoHdr {
            status: 0,
            masked_status: 0,
            msg_status: 0,
            sb_len_wr: 0,
            host_status: 0,
            driver_status: 0,
            resid: 0,
            ..self
        }
    }

    /// The sense bytes after `set_check_condition(key, asc, ascq)`.
    pub open spec fn sense_after_check(self, key: u8, asc: u8, ascq: u8) -> Option<Seq<u8>> {
        match self.sbp {
            Some(b) => if self.mx_sb_len >= SENSE_LEN {
                Some(sense_written(b@, self.mx_sb_len as int, key, asc, ascq))
            } else {
                Some(b@)
            },
            None => None,
        }
    }

    /// The data bytes and residual after `write_response(data)`.
    pub open spec fn data_after_response(self, data: Seq<u8>) -> Option<Seq<u8>> {
        match self.dxferp {
            Some(b) => if self.dxfer_len == 0 {
                Some(b@)
            } else {
                Some(buffer_written(b@, data, self.dxfer_len))
            },
            None => None,
        }
    }

    /// The residual reported by `write_response(data)`.
    pub open spec fn resid_after_response(self, data: Seq<u8>) -> i32 {
        if self.dxferp is None || self.dxfer_len == 0 {
            capped_len(self.dxfer_len) as i32
        } else {
            residual(self.dxfer_len, transferred(data.len() as int, self.dxfer_len))
        }
    }

    /// Every field but the data buffer and `resid` is the same.
    pub open spec fn same_but_data(self, other: SgIoHdr) -> bool {
        &&& other.interface_id == self.interface_id
        &&& other.dxfer_direction == self.dxfer_direction
        &&& other.cmd_len == self.cmd_len
        &&& other.mx_sb_len == self.mx_sb_len
        &&& other.iovec_count == self.iovec_count
        &&& other.dxfer_len == self.dxfer_len
        &&& other.cmdp == self.cmdp
        &&& other.sbp == self.sbp
        &&& other.timeout == self.timeout
        &&& other.flags == self.flags
        &&& other.pack_id == self.pack_id
        &&& other.status == self.status
        &&& other.masked_status == self.masked_status
        &&& other.msg_status == self.msg_status
        &&& other.sb_len_wr == self.sb_len_wr
        &&& other.host_status == self.host_status
        &&& other.driver_status == self.driver_status
        &&& other.duration == self.duration
        &&& other.info == self.info
    }

    /// Every field but the sense buffer, the status fields and `sb_len_wr`
    /// is the same.
    pub open spec fn same_but_sense(self, other: SgIoHdr) -> bool {
        &&& other.interface_id == self.interface_id
        &&& other.dxfer_direction == self.dxfer_direction
        &&& other.cmd_len == self.cmd_len
        &&& other.mx_sb_len == self.mx_sb_len
        &&& other.iovec_count == self.iovec_count
        &&& other.dxfer_len == self.dxfer_len
        &&& other.dxferp == self.dxferp
        &&& other.cmdp == self.cmdp
        &&& other.timeout == self.timeout
        &&& other.flags == self.flags
        &&& other.pack_id == self.pack_id
        &&& other.msg_status == self.msg_status
        &&& other.host_status == self.host_status
        &&& other.driver_status == self.driver_status
        &&& other.resid == self.resid
        &&& other.duration == self.duration
        &&& other.info == self.info
    }

    /// Clear all output status fields (success).
    pub fn clear_status(&mut self)
        ensures
            *final(self) == old(self).cleared(),
    {
        self.status = 0;
        self.masked_status = 0;
        self.msg_status = 0;
        self.sb_len_wr = 0;
        self.host_status = 0;
        self.driver_status = 0;
        self.resid = 0;
    }

    /// Set CHECK CONDITION with fixed-format sense data. The sense bytes are
    /// written, and `sb_len_wr` set to 18, only when a sense buffer of at
    /// least 18 bytes was supplied.
    pub fn set_check_condition(&mut self, sense_key: u8, asc: u8, ascq: u8)
        requires
            old(self).wf(),
        ensures
            final(self).wf(),
            old(self).same_but_sense(*final(self)),
            final(self).status == 0x02,
            final(self).masked_status == 0x01,
            final(self).sb_len_wr == (if old(self).sbp is Some && old(self).mx_sb_len >= SENSE_LEN {
                SENSE_LEN
            } else {
                old(self).sb_len_wr
            }),
            (match final(self).sbp {
                Some(b) => old(self).sense_after_check(sense_key, asc, ascq) == Some(b@),
                None => old(self).sbp is None,
            }),
    {
        self.status = 0x02;
        self.masked_status = 0x01;
        if self.sbp.is_some() && self.mx_sb_len >= SENSE_LEN {
            let mut buf = self.sbp.take().unwrap();
            let mx = self.mx_sb_len as usize;
            let ghost orig = buf@;
            let mut i: usize = 0;
            while i < mx
                invariant
                    mx <= buf@.len(),
                    buf@.len() == orig.len(),
                    i <= mx,
                    forall|j: int|
                        0 <= j < buf@.len() ==> #[trigger] buf@[j] == (if j < i {
                            fixed_sense_byte(j, sense_key, asc, ascq)
                        } else {
                            orig[j]
                        }),
                decreases mx - i,
            {
                let v: u8 = if i == 0 {
                    0x70
                } else if i == 2 {
                    sense_key
                } else if i == 7 {
                    10
                } else if i == 12 {
                    asc
                } else if i == 13 {
                    ascq
                } else {
                    0
                };
                buf.set(i, v);
                i = i + 1;
            }
            proof {
                assert(buf@ =~= sense_written(orig, mx as int, sense_key, asc, ascq));
            }
            self.sbp = Some(buf);
            self.sb_len_wr = SENSE_LEN;
        }
    }

    /// The CDB opcode (byte 0), or 0 when there is no CDB.
    pub fn opcode(&self) -> (op: u8)
        requires
            self.wf(),
        ensures
            op == self.spec_cdb(0),
    {
        self.cdb(0)
    }

    /// CDB byte `idx`, or 0 when the CDB is absent or shorter.
    pub fn cdb(&self, idx: usize) -> (b: u8)
        requires
            self.wf(),
        ensures
            b == self.spec_cdb(idx as int),
    {
        match &self.cmdp {
            Some(buf) => {
                if idx < self.cmd_len as usize {
                    buf[idx]
                } else {
                    0
                }
            },
            None => 0,
        }
    }

    /// Write `data` as the response: at most `dxfer_len` bytes are copied,
    /// the rest of the declared transfer is zeroed, and the untransferred
    /// length is reported in `resid`.
    pub fn write_response(&mut self, data: &[u8])
        requires
            old(self).wf(),
        ensures
            final(self).wf(),
            old(self).same_but_data(*final(self)),
            final(self).resid == old(self).resid_after_response(data@),
            (match final(self).dxferp {
                Some(b) => old(self).data_after_response(data@) == Some(b@),
                None => old(self).dxferp is None,
            }),
    {
        let dxfer_len = self.dxfer_len;
        let capped: i32 = if dxfer_len <= i32::MAX as u32 {
            dxfer_len as i32
        } else {
            i32::MAX
        };
        if self.dxferp.is_none() || dxfer_len == 0 {
            self.resid = capped;
            return;
        }
        let mut buf = self.dxferp.take().unwrap();
        let len: usize = if data.len() < dxfer_len as usize {
            data.len()
        } else {
            dxfer_len as usize
        };
        let total = dxfer_len as usize;
        let ghost orig = buf@;
        let mut i: usize = 0;
        while i < total
            invariant
                total == dxfer_len,
                total <= buf@.len(),
                buf@.len() == orig.len(),
                len <= total,
                len <= data@.len(),
                len == transferred(data@.len() as int, dxfer_len),
                i <= total,
                forall|j: int|
                    0 <= j < buf@.len() ==> #[trigger] buf@[j] == (if j < i {
                        if j < len {
                            data@[j]
                        } else {
                            0u8
                        }
                    } else {
                        orig[j]
                    }),
            decreases total - i,
        {
            let v: u8 = if i < len {
                data[i]
            } else {
                0
            };
            buf.set(i, v);
            i = i + 1;
        }
        proof {
            assert(buf@ =~= buffer_written(orig, data@, dxfer_len));
        }
        self.dxferp = Some(buf);
        let taken: i32 = #[verifier::truncate] (len as i32);
        let diff: i64 = capped as i64 - taken as i64;
        self.resid = if diff > i32::MAX as i64 {
            i32::MAX
        } else if diff < i32::MIN as i64 {
            i32::MIN
        } else {
            diff as i32
        };
    }
}

} // verus!
