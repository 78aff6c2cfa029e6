//! What a process can ask the camera for.
use vstd::prelude::*;

use crate::abi::UsbControlSetup;

verus! {

/// Type character of the usbfs requests, `U`.
pub const IOC_TYPE_USB: u32 = 0x55;

// Numbers of the usbfs requests.
pub const USBDEVFS_GET_CAPABILITIES_NR: u32 = 26;

pub const USBDEVFS_GET_DRIVER_NR: u32 = 8;

pub const USBDEVFS_CLAIMINTERFACE_NR: u32 = 18;

pub const USBDEVFS_RELEASEINTERFACE_NR: u32 = 16;

pub const USBDEVFS_RESETEP_NR: u32 = 15;

pub const USBDEVFS_SUBMITURB_NR: u32 = 10;

pub const USBDEVFS_REAPURBNDELAY_NR: u32 = 13;

pub const USBDEVFS_DISCARDURB_NR: u32 = 11;

pub const USBDEVFS_RESET_NR: u32 = 4;

// URB types.
pub const USBDEVFS_URB_TYPE_ISO: u8 = 0;

pub const USBDEVFS_URB_TYPE_CONTROL: u8 = 2;

// Control requests.
pub const USB_TYPE_MASK: u8 = 0x60;

pub const USB_TYPE_STANDARD: u8 = 0x00;

pub const USB_TYPE_CLASS: u8 = 0x20;

pub const USB_DIR_OUT: u8 = 0x00;

pub const USB_DIR_IN: u8 = 0x80;

pub const USB_REQ_GET_DESCRIPTOR: u8 = 6;

pub const USB_DT_STRING: u16 = 3;

pub const UVC_SET_CUR: u8 = 0x01;

pub const UVC_GET_CUR: u8 = 0x81;

pub const UVC_GET_MAX: u8 = 0x83;

/// A usbfs request that the camera knows.
#[derive(Clone, Copy, Debug, PartialEq, Eq, Structural)]
pub enum Request {
    GetCapabilities,
    GetDriver,
    ClaimInterface,
    ReleaseInterface,
    ResetEndpoint,
    SubmitUrb,
    ReapUrbNoDelay,
    DiscardUrb,
    Reset,
}

impl Request {
    /// The request that a command asks for: the second byte of the command is
    /// the type character, the lowest byte the number. Size and direction, in
    /// the upper half, are not looked at.
    pub open spec fn of(cmd: u32) -> Option<Request> {
        let number = cmd % 0x100;
        if cmd / 0x100 % 0x100 != IOC_TYPE_USB {
            None
        } else if number == USBDEVFS_GET_CAPABILITIES_NR {
            Some(Request::GetCapabilities)
        } else if number == USBDEVFS_GET_DRIVER_NR {
            Some(Request::GetDriver)
        } else if number == USBDEVFS_CLAIMINTERFACE_NR {
            Some(Request::ClaimInterface)
        } else if number == USBDEVFS_RELEASEINTERFACE_NR {
            Some(Request::ReleaseInterface)
        } else if number == USBDEVFS_RESETEP_NR {
            Some(Request::ResetEndpoint)
        } else if number == USBDEVFS_SUBMITURB_NR {
            Some(Request::SubmitUrb)
        } else if number == USBDEVFS_REAPURBNDELAY_NR {
            Some(Request::ReapUrbNoDelay)
        } else if number == USBDEVFS_DISCARDURB_NR {
            Some(Request::DiscardUrb)
        } else if number == USBDEVFS_RESET_NR {
            Some(Request::Reset)
        } else {
            None
        }
    }

    /// Finds the request that a command asks for.
    pub fn from_cmd(cmd: u32) -> (r: Option<Request>)
        ensures
            r == Request::of(cmd),
    {
        let ioc_type: u32 = cmd / 0x100 % 0x100;
        let ioc_nr: u32 = cmd % 0x100;
        if ioc_type != IOC_TYPE_USB {
            return None;
        }
        match ioc_nr {
            USBDEVFS_GET_CAPABILITIES_NR => Some(Request::GetCapabilities),
            USBDEVFS_GET_DRIVER_NR => Some(Request::GetDriver),
            USBDEVFS_CLAIMINTERFACE_NR => Some(Request::ClaimInterface),
            USBDEVFS_RELEASEINTERFACE_NR => Some(Request::ReleaseInterface),
            USBDEVFS_RESETEP_NR => Some(Request::ResetEndpoint),
            USBDEVFS_SUBMITURB_NR => Some(Request::SubmitUrb),
            USBDEVFS_REAPURBNDELAY_NR => Some(Request::ReapUrbNoDelay),
            USBDEVFS_DISCARDURB_NR => Some(Request::DiscardUrb),
            USBDEVFS_RESET_NR => Some(Request::Reset),
            _ => None,
        }
    }
}

/// What a control transfer asks the camera for.
#[derive(Clone, Copy, Debug, PartialEq, Eq, Structural)]
pub enum ControlRequest {
    /// The languages of the string descriptors.
    Languages,
    /// Set the current value of a control.
    SetCurrent,
    /// The current or the maximal value of a control.
    GetProbe,
}

impl ControlRequest {
    /// What a setup packet asks for, where the camera supports it.
    pub open spec fn of(setup: UsbControlSetup) -> Option<ControlRequest> {
        let kind = setup.request_type & USB_TYPE_MASK;
        let direction = setup.request_type & USB_DIR_IN;
        if kind == USB_TYPE_STANDARD && setup.request == USB_REQ_GET_DESCRIPTOR && setup.value
            == 0x100 * USB_DT_STRING {
            Some(ControlRequest::Languages)
        } else if kind == USB_TYPE_CLASS && setup.request == UVC_SET_CUR && direction
            == USB_DIR_OUT {
            Some(ControlRequest::SetCurrent)
        } else if kind == USB_TYPE_CLASS && (setup.request == UVC_GET_CUR || setup.request
            == UVC_GET_MAX) && direction == USB_DIR_IN {
            Some(ControlRequest::GetProbe)
        } else {
            None
        }
    }

    /// Finds what a setup packet asks for.
    pub fn from_setup(setup: &UsbControlSetup) -> (r: Option<ControlRequest>)
        ensures
            r == ControlRequest::of(*setup),
    {
        let request_type: u8 = setup.request_type & USB_TYPE_MASK;
        let request_dir: u8 = setup.request_type & USB_DIR_IN;
        if request_type == USB_TYPE_STANDARD {
            if setup.request == USB_REQ_GET_DESCRIPTOR {
                let desc_type: u16 = setup.value / 0x100;
                let desc_index: u16 = setup.value % 0x100;
                if desc_type == USB_DT_STRING && desc_index == 0 {
                    return Some(ControlRequest::Languages);
                }
            }
            return None;
        }
        if request_type == USB_TYPE_CLASS {
            if setup.request == UVC_SET_CUR && request_dir == USB_DIR_OUT {
                return Some(ControlRequest::SetCurrent);
            }
            if (setup.request == UVC_GET_CUR || setup.request == UVC_GET_MAX) && request_dir
                == USB_DIR_IN {
                return Some(ControlRequest::GetProbe);
            }
        }
        None
    }
}

/// The string descriptor that lists the languages: only English (0x0409).
pub open spec fn languages() -> Seq<u8> {
    seq![0x04u8, 0x03u8, 0x09u8, 0x04u8]
}

} // verus!
