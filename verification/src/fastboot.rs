//! Bootloader-mode data: partitions, device variables and the failures of
//! that transport.  The transport itself is an external collaborator; this
//! module holds the pure decisions around it.

use vstd::prelude::*;

use crate::text::str_eq;

verus! {

/// Variables describing one device in bootloader mode; each is independently
/// optional but the serial, which falls back to a marker.
#[derive(Debug, PartialEq)]
pub struct FastbootDeviceInfo {
    pub serial: String,
    pub product: Option<String>,
    pub model: Option<String>,
    pub device: Option<String>,
    pub bootloader: Option<String>,
    pub version: Option<String>,
}

#[verifier::ext_equal]
pub struct FastbootDeviceInfoView {
    pub serial: Seq<char>,
    pub product: Option<Seq<char>>,
    pub model: Option<Seq<char>>,
    pub device: Option<Seq<char>>,
    pub bootloader: Option<Seq<char>>,
    pub version: Option<Seq<char>>,
}

impl View for FastbootDeviceInfo {
    type V = FastbootDeviceInfoView;

    open spec fn view(&self) -> FastbootDeviceInfoView {
        FastbootDeviceInfoView {
            serial: self.serial@,
            product: opt_seq(&self.product),
            model: opt_seq(&self.model),
            device: opt_seq(&self.device),
            bootloader: opt_seq(&self.bootloader),
            version: opt_seq(&self.version),
        }
    }
}

pub open spec fn opt_seq(o: &Option<String>) -> Option<Seq<char>> {
    match o {
        Some(s) => Some(s@),
        None => None,
    }
}

impl Clone for FastbootDeviceInfo {
    fn clone(&self) -> (r: Self)
        ensures
            r == *self,
    {
        FastbootDeviceInfo {
            serial: self.serial.clone(),
            product: clone_opt(&self.product),
            model: clone_opt(&self.model),
            device: clone_opt(&self.device),
            bootloader: clone_opt(&self.bootloader),
            version: clone_opt(&self.version),
        }
    }
}

fn clone_opt(o: &Option<String>) -> (r: Option<String>)
    ensures
        r == *o,
{
    match o {
        Some(s) => Some(s.clone()),
        None => None,
    }
}

impl FastbootDeviceInfo {
    /// A record known only by its serial; every variable still unread.  The
    /// serial falls back to a marker when the transport reported none.
    pub fn from_serial(serial: Option<String>) -> (r: Self)
        ensures
            r@.serial == match serial {
                Some(s) => s@,
                None => "unknown"@,
            },
            r@.product is None,
            r@.model is None,
            r@.device is None,
            r@.bootloader is None,
            r@.version is None,
    {
        let s = match serial {
            Some(s) => s,
            None => {
                proof {
                    reveal_strlit("unknown");
                }
                String::from_str("unknown")
            },
        };
        FastbootDeviceInfo {
            serial: s,
            product: None,
            model: None,
            device: None,
            bootloader: None,
            version: None,
        }
    }

    /// Assembles the record from individually fetched variables; a failed
    /// serial read falls back to the marker and every other failure leaves
    /// its own field empty, blocking none of the siblings.
    pub fn from_vars(
        serial: Result<String, String>,
        product: Option<String>,
        model: Option<String>,
        device: Option<String>,
        bootloader: Option<String>,
        version: Option<String>,
    ) -> (r: Self)
        ensures
            r@.serial == match serial {
                Ok(s) => s@,
                Err(_) => "unknown"@,
            },
            r@.product == opt_seq(&product),
            r@.model == opt_seq(&model),
            r@.device == opt_seq(&device),
            r@.bootloader == opt_seq(&bootloader),
            r@.version == opt_seq(&version),
    {
        let s = match serial {
            Ok(s) => s,
            Err(_) => {
                proof {
                    reveal_strlit("unknown");
                }
                String::from_str("unknown")
            },
        };
        FastbootDeviceInfo { serial: s, product, model, device, bootloader, version }
    }
}

/// A flashable partition, by its conventional name or a custom one.
#[derive(Debug, Clone, PartialEq)]
pub enum FlashPartition {
    Boot,
    System,
    Recovery,
    Vendor,
    Custom(String),
}

pub open spec fn spec_partition_str(p: &FlashPartition) -> Seq<char> {
    match p {
        FlashPartition::Boot => "boot"@,
        FlashPartition::System => "system"@,
        FlashPartition::Recovery => "recovery"@,
        FlashPartition::Vendor => "vendor"@,
        FlashPartition::Custom(name) => name@,
    }
}

impl FlashPartition {
    /// The partition name used on the wire.
    pub fn as_str(&self) -> (r: &str)
        ensures
            r@ == spec_partition_str(self),
    {
        proof {
            reveal_strlit("boot");
            reveal_strlit("system");
            reveal_strlit("recovery");
            reveal_strlit("vendor");
        }
        match self {
            FlashPartition::Boot => "boot",
            FlashPartition::System => "system",
            FlashPartition::Recovery => "recovery",
            FlashPartition::Vendor => "vendor",
            FlashPartition::Custom(name) => name.as_str(),
        }
    }
}

/// Whether a slot-support variable read answered yes.  A failed read counts
/// as unsupported.
pub fn slot_supported(var_value: Result<String, String>) -> (r: bool)
    ensures
        r == match var_value {
            Ok(v) => v@ == "yes"@,
            Err(_) => false,
        },
{
    proof {
        reveal_strlit("yes");
    }
    match var_value {
        Ok(v) => str_eq(v.as_str(), "yes"),
        Err(_) => false,
    }
}

/// Failures of the bootloader transport.
#[derive(Debug, Clone, PartialEq)]
pub enum FastbootError {
    NoDevice,
    MultipleDevices,
    CommandError(String),
    IoError(String),
    ProtocolError(String),
}

impl FastbootError {
    /// A human-readable description of the failure.
    pub fn message(&self) -> (r: String)
        ensures
            match self {
                FastbootError::NoDevice => r@ == "No device found"@,
                FastbootError::MultipleDevices => r@ == "Multiple devices found"@,
                FastbootError::CommandError(m) => r@ == "Fastboot error: "@ + m@,
                FastbootError::IoError(m) => r@ == "IO error: "@ + m@,
                FastbootError::ProtocolError(m) => r@ == "Fastboot protocol error: "@ + m@,
            },
    {
        match self {
            FastbootError::NoDevice => String::from_str("No device found"),
            FastbootError::MultipleDevices => String::from_str("Multiple devices found"),
            FastbootError::CommandError(m) => {
                let mut s = String::from_str("Fastboot error: ");
                s.append(m.as_str());
                s
            },
            FastbootError::IoError(m) => {
                let mut s = String::from_str("IO error: ");
                s.append(m.as_str());
                s
            },
            FastbootError::ProtocolError(m) => {
                let mut s = String::from_str("Fastboot protocol error: ");
                s.append(m.as_str());
                s
            },
        }
    }
}

} // verus!
