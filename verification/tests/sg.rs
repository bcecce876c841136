use bdemu::sg::SgIoHdr;

fn hdr_over(data: Vec<u8>) -> SgIoHdr {
    SgIoHdr {
        interface_id: b'S' as i32,
        dxfer_direction: -3,
        cmd_len: 0,
        mx_sb_len: 0,
        iovec_count: 0,
        dxfer_len: data.len() as u32,
        dxferp: Some(data),
        cmdp: None,
        sbp: None,
        timeout: 5000,
        flags: 0,
        pack_id: 0,
        status: 0,
        masked_status: 0,
        msg_status: 0,
        sb_len_wr: 0,
        host_status: 0,
        driver_status: 0,
        resid: 0,
        duration: 0,
        info: 0,
    }
}

#[test]
fn short_response_zeroes_the_untouched_tail() {
    let mut hdr = hdr_over(vec![0xEEu8; 64]);
    hdr.write_response(&[1, 2, 3, 4]);
    assert_eq!(hdr.resid, 60, "residual must report the unfilled tail");
    let buf = hdr.dxferp.unwrap();
    assert_eq!(&buf[..4], &[1, 2, 3, 4]);
    assert!(buf[4..].iter().all(|&b| b == 0), "stale host bytes must not survive: {:?}", &buf[4..]);
}

#[test]
fn full_response_fills_the_buffer_exactly() {
    let mut hdr = hdr_over(vec![0xEEu8; 8]);
    hdr.write_response(&[9u8; 8]);
    assert_eq!(hdr.resid, 0);
    assert!(hdr.dxferp.unwrap().iter().all(|&b| b == 9));
}

#[test]
fn oversized_response_is_truncated_to_the_host_buffer() {
    let mut hdr = hdr_over(vec![0xEEu8; 4]);
    hdr.write_response(&[7u8; 16]);
    assert_eq!(hdr.resid, 0);
    assert_eq!(hdr.dxferp.unwrap(), vec![7u8; 4]);
}

#[test]
fn empty_transfer_reports_full_residual() {
    let mut hdr = hdr_over(Vec::new());
    hdr.dxfer_len = 512;
    hdr.dxferp = None;
    hdr.write_response(&[1, 2, 3]);
    assert_eq!(hdr.resid, 512);
}

#[test]
fn check_condition_writes_fixed_sense_and_status() {
    let mut hdr = hdr_over(vec![0xEEu8; 4]);
    hdr.mx_sb_len = 32;
    hdr.sbp = Some(vec![0xFFu8; 32]);
    hdr.set_check_condition(0x05, 0x24, 0x00);
    assert_eq!(hdr.status, 0x02);
    assert_eq!(hdr.masked_status, 0x01);
    assert_eq!(hdr.sb_len_wr, 18);
    let sense = hdr.sbp.clone().unwrap();
    assert_eq!(sense[0], 0x70);
    assert_eq!(sense[2], 0x05);
    assert_eq!(sense[7], 10);
    assert_eq!(sense[12], 0x24);
    assert_eq!(sense[13], 0x00);
    assert_eq!(hdr.dxferp.unwrap(), vec![0xEEu8; 4], "no data moves on CHECK CONDITION");
}

#[test]
fn clear_status_resets_the_outputs() {
    let mut hdr = hdr_over(vec![0u8; 4]);
    hdr.status = 2;
    hdr.masked_status = 1;
    hdr.sb_len_wr = 18;
    hdr.resid = 7;
    hdr.host_status = 3;
    hdr.driver_status = 4;
    hdr.clear_status();
    assert_eq!((hdr.status, hdr.masked_status, hdr.sb_len_wr, hdr.resid), (0, 0, 0, 0));
    assert_eq!((hdr.host_status, hdr.driver_status), (0, 0));
}

#[test]
fn opcode_and_cdb_bytes_read_the_command() {
    let mut hdr = hdr_over(Vec::new());
    hdr.cmd_len = 6;
    hdr.cmdp = Some(vec![0x12, 0, 0, 0, 96, 0]);
    assert_eq!(hdr.opcode(), 0x12);
    assert_eq!(hdr.cdb(4), 96);
    assert_eq!(hdr.cdb(9), 0, "past the command length reads as zero");
}
