//! The constants are those of the system headers.
use mcanbus::consts::{
    AF_CAN, CAN_EFF_FLAG, CAN_EFF_MASK, CAN_ERR_FLAG, CAN_ERR_MASK, CAN_RAW, CAN_RAW_ERR_FILTER,
    CAN_RAW_FD_FRAMES, CAN_RAW_FILTER, CAN_RTR_FLAG, CAN_SFF_MASK, EAGAIN, EINTR, IFNAMSIZ, PF_CAN,
    SOF_TIMESTAMPING_RAW_HARDWARE, SOF_TIMESTAMPING_RX_HARDWARE, SOF_TIMESTAMPING_RX_SOFTWARE,
    SOF_TIMESTAMPING_SOFTWARE, SOL_CAN_RAW,
};
use mcanbus::netlink::{
    IFF_UP, IFINFOMSG_LEN, NLMSGHDR_LEN, NLMSG_ERROR, REQUEST_AND_ACK, RTM_GETLINK, RTM_NEWLINK,
};
use mcanbus::socket::BEST_TIMESTAMPS;

#[test]
fn can_constants() {
    assert_eq!(AF_CAN, libc::AF_CAN);
    assert_eq!(PF_CAN, libc::PF_CAN);
    assert_eq!(CAN_RAW, libc::CAN_RAW);
    assert_eq!(SOL_CAN_RAW, libc::SOL_CAN_RAW);
    assert_eq!(CAN_RAW_FILTER, libc::CAN_RAW_FILTER);
    assert_eq!(CAN_RAW_ERR_FILTER, libc::CAN_RAW_ERR_FILTER);
    assert_eq!(CAN_RAW_FD_FRAMES, libc::CAN_RAW_FD_FRAMES);
    assert_eq!(CAN_EFF_FLAG, libc::CAN_EFF_FLAG);
    assert_eq!(CAN_RTR_FLAG, libc::CAN_RTR_FLAG);
    assert_eq!(CAN_ERR_FLAG, libc::CAN_ERR_FLAG);
    assert_eq!(CAN_EFF_MASK, libc::CAN_EFF_MASK);
    assert_eq!(CAN_SFF_MASK, libc::CAN_SFF_MASK);
    assert_eq!(CAN_ERR_MASK, libc::CAN_ERR_MASK);
}

#[test]
fn system_constants() {
    assert_eq!(EAGAIN, libc::EAGAIN);
    assert_eq!(EINTR, libc::EINTR);
    assert_eq!(IFNAMSIZ, libc::IFNAMSIZ);
    assert_eq!(SOF_TIMESTAMPING_RX_HARDWARE, libc::SOF_TIMESTAMPING_RX_HARDWARE as u32);
    assert_eq!(SOF_TIMESTAMPING_RX_SOFTWARE, libc::SOF_TIMESTAMPING_RX_SOFTWARE as u32);
    assert_eq!(SOF_TIMESTAMPING_SOFTWARE, libc::SOF_TIMESTAMPING_SOFTWARE as u32);
    assert_eq!(SOF_TIMESTAMPING_RAW_HARDWARE, libc::SOF_TIMESTAMPING_RAW_HARDWARE as u32);
    assert_eq!(BEST_TIMESTAMPS, 4 | 8 | 16 | 64);
}

#[test]
fn netlink_constants() {
    assert_eq!(NLMSGHDR_LEN, std::mem::size_of::<libc::nlmsghdr>());
    assert_eq!(IFINFOMSG_LEN, 16);
    assert_eq!(i32::from(NLMSG_ERROR), libc::NLMSG_ERROR);
    assert_eq!(RTM_NEWLINK, libc::RTM_NEWLINK);
    assert_eq!(RTM_GETLINK, libc::RTM_GETLINK);
    assert_eq!(i32::from(REQUEST_AND_ACK), libc::NLM_F_REQUEST | libc::NLM_F_ACK);
    assert_eq!(IFF_UP, libc::IFF_UP as u32);
}
