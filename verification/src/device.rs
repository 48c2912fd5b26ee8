//! What the library reports: one descriptor for each removable mount.

use vstd::prelude::*;

verus! {

/// The kind of storage behind a mount.
#[derive(Clone, Copy, Debug, PartialEq, Eq)]
pub enum DeviceType {
    USB,
    Disk,
    Network,
}

/// A mounted removable device as shown to the user.
#[derive(Clone, Debug)]
pub struct Device {
    device_type: DeviceType,
    label: String,
    mountpoint: String,
}

/// The mathematical value of a `Device`.
pub ghost struct DeviceView {
    pub kind: DeviceType,
    pub label: Seq<char>,
    pub mountpoint: Seq<char>,
}

impl View for Device {
    type V = DeviceView;

    closed spec fn view(&self) -> DeviceView {
        DeviceView { kind: self.device_type, label: self.label@, mountpoint: self.mountpoint@ }
    }
}

impl Device {
    /// A descriptor of the given kind, label and mount point.
    pub fn new(device_type: DeviceType, label: String, mountpoint: String) -> (r: Device)
        ensures
            r@ == (DeviceView { kind: device_type, label: label@, mountpoint: mountpoint@ }),
    {
        Device { device_type, label, mountpoint }
    }

    #[must_use]
    pub fn device_type(&self) -> (r: DeviceType)
        ensures
            r == self@.kind,
    {
        self.device_type
    }

    #[must_use]
    pub fn label(&self) -> (r: String)
        ensures
            r@ == self@.label,
    {
        self.label.clone()
    }

    #[must_use]
    pub fn mountpoint(&self) -> (r: String)
        ensures
            r@ == self@.mountpoint,
    {
        self.mountpoint.clone()
    }

    /// Every descriptor stands for a filesystem that is mounted now.
    #[must_use]
    pub fn mounted(&self) -> (r: bool)
        ensures
            r,
    {
        true
    }
}

/// The values of a list of descriptors, in order.
pub open spec fn device_views(devices: Seq<Device>) -> Seq<DeviceView> {
    devices.map_values(|d: Device| d@)
}

} // verus!
