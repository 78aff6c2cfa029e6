//! What kind of device a USB device is taken for.
use vstd::prelude::*;

verus! {

/// The kinds of devices.
#[derive(Clone, Copy, Debug, PartialEq, Eq, Structural)]
pub enum UsbDeviceType {
    Keyboard,
    Mouse,
    MassStorage,
    UVC,
    Other,
}

/// The device classes that are told apart.
#[derive(Clone, Copy, Debug, PartialEq, Eq, Structural)]
pub enum Class {
    /// The interfaces have classes of their own.
    ClassInInterface,
    Video,
}

/// The kinds of device files.
#[derive(Clone, Copy, Debug, PartialEq, Eq, Structural)]
pub enum NodeType {
    CharacterDevice,
}

/// What serves the calls on a device file.
#[derive(Clone, Copy, Debug, PartialEq, Eq, Structural)]
pub enum OpsKind {
    /// The camera.
    Uvc,
    /// A device that is only listed.
    Other,
}

/// A USB device.
#[derive(Debug)]
pub struct UsbDevice {
    pub class: Class,
    pub node_type: NodeType,
    pub device_type: UsbDeviceType,
    pub ops: Option<OpsKind>,
    pub configuration_descriptor: Vec<u8>,
}

/// The value of a `UsbDevice`.
#[verifier::ext_equal]
pub struct DeviceView {
    pub class: Class,
    pub node_type: NodeType,
    pub device_type: UsbDeviceType,
    pub ops: Option<OpsKind>,
    pub configuration: Seq<u8>,
}

impl View for UsbDevice {
    type V = DeviceView;

    open spec fn view(&self) -> DeviceView {
        DeviceView {
            class: self.class,
            node_type: self.node_type,
            device_type: self.device_type,
            ops: self.ops,
            configuration: self.configuration_descriptor@,
        }
    }
}

/// What a device is taken for.
pub open spec fn taken_for(is_video: bool, configuration: Seq<u8>) -> DeviceView {
    if is_video {
        DeviceView {
            class: Class::Video,
            node_type: NodeType::CharacterDevice,
            device_type: UsbDeviceType::UVC,
            ops: Some(OpsKind::Uvc),
            configuration,
        }
    } else {
        DeviceView {
            class: Class::ClassInInterface,
            node_type: NodeType::CharacterDevice,
            device_type: UsbDeviceType::Other,
            ops: Some(OpsKind::Other),
            configuration: Seq::empty(),
        }
    }
}

/// A device is served, listed and classed as a camera exactly when it is one, and
/// only then its configuration is published, in full.
pub proof fn law_cameras_are_told_apart(is_video: bool, configuration: Seq<u8>)
    ensures
        ({
            let device = taken_for(is_video, configuration);
            &&& device.class == Class::Video <==> is_video
            &&& device.device_type == UsbDeviceType::UVC <==> is_video
            &&& device.device_type == UsbDeviceType::Other <==> !is_video
            &&& device.ops == Some(OpsKind::Uvc) <==> is_video
            &&& device.ops is Some
            &&& device.node_type == NodeType::CharacterDevice
            &&& is_video ==> device.configuration == configuration
            &&& !is_video ==> device.configuration.len() == 0
        }),
{
}

impl UsbDevice {
    /// Takes in a device. `is_video` says whether it is a camera; if so,
    /// `configuration_descriptor` is its full configuration descriptor.
    pub fn new(is_video: bool, configuration_descriptor: Vec<u8>) -> (r: UsbDevice)
        ensures
            r.class == if is_video {
                Class::Video
            } else {
                Class::ClassInInterface
            },
            r.node_type == NodeType::CharacterDevice,
            r.device_type == if is_video {
                UsbDeviceType::UVC
            } else {
                UsbDeviceType::Other
            },
            r.ops == Some(
                if is_video {
                    OpsKind::Uvc
                } else {
                    OpsKind::Other
                },
            ),
            r.configuration_descriptor@ == if is_video {
                configuration_descriptor@
            } else {
                Seq::empty()
            },
            r@ == taken_for(is_video, configuration_descriptor@),
    {
        let mut usb = UsbDevice {
            class: Class::ClassInInterface,
            node_type: NodeType::CharacterDevice,
            device_type: UsbDeviceType::Other,
            ops: None,
            configuration_descriptor: Vec::new(),
        };
        usb.init_attrs(is_video);
        usb.build_device_ops(configuration_descriptor);
        usb
    }

    /// Marks a camera as one; leaves any other device as it is.
    fn init_attrs(&mut self, is_video: bool)
        ensures
            *final(self) == if is_video {
                UsbDevice { class: Class::Video, device_type: UsbDeviceType::UVC, ..*old(self) }
            } else {
                *old(self)
            },
    {
        if is_video {
            self.class = Class::Video;
            self.device_type = UsbDeviceType::UVC;
        }
    }

    /// Chooses what serves the device file. A camera brings its configuration
    /// descriptor along.
    fn build_device_ops(&mut self, configuration_descriptor: Vec<u8>)
        ensures
            *final(self) == if old(self).device_type == UsbDeviceType::UVC {
                UsbDevice { ops: Some(OpsKind::Uvc), configuration_descriptor, ..*old(self) }
            } else {
                UsbDevice { ops: Some(OpsKind::Other), ..*old(self) }
            },
    {
        match self.device_type {
            UsbDeviceType::UVC => {
                self.configuration_descriptor = configuration_descriptor;
                self.ops = Some(OpsKind::Uvc);
            },
            _ => {
                self.ops = Some(OpsKind::Other);
            },
        }
    }
}

} // verus!
