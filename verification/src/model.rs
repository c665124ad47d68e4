//! Plain data shared by the worker, the settings and the platform layer.

use vstd::prelude::*;

verus! {

/// A monitor's stable identity, as the platform layer reports it.
#[derive(Debug, Hash, PartialEq, Eq, PartialOrd, Ord)]
pub struct MonitorId(pub String);

impl View for MonitorId {
    type V = Seq<char>;

    open spec fn view(&self) -> Seq<char> {
        self.0@
    }
}

impl Clone for MonitorId {
    fn clone(&self) -> (r: Self)
        ensures
            r == *self,
    {
        MonitorId(self.0.clone())
    }
}

impl MonitorId {
    /// Whether two identities name the same monitor.
    pub fn same(&self, other: &MonitorId) -> (r: bool)
        ensures
            r == (self@ == other@),
    {
        self.0 == other.0
    }
}

/// A rectangle in screen coordinates.
#[derive(Clone, Copy, Debug, Default, PartialEq, Eq)]
pub struct Rect {
    pub x: i32,
    pub y: i32,
    pub width: i32,
    pub height: i32,
}

impl Rect {
    pub open spec fn spec_contains(self, x: int, y: int) -> bool {
        x >= self.x && y >= self.y && x < self.x + self.width && y < self.y + self.height
    }

    /// Whether the point lies inside: the left and top edges are in, the right and bottom
    /// edges out.
    pub fn contains(&self, x: i32, y: i32) -> (r: bool)
        ensures
            r == self.spec_contains(x as int, y as int),
    {
        // the sums are computed wide so that no edge overflows
        let right: i64 = self.x as i64 + self.width as i64;
        let bottom: i64 = self.y as i64 + self.height as i64;
        x >= self.x && y >= self.y && (x as i64) < right && (y as i64) < bottom
    }
}

/// How monitors without hardware control are dimmed.
#[derive(Clone, Copy, Debug, PartialEq, Eq)]
pub enum SoftwareDimMode {
    Overlay,
    Gamma,
}

impl Default for SoftwareDimMode {
    fn default() -> (r: Self)
        ensures
            r == SoftwareDimMode::Overlay,
    {
        SoftwareDimMode::Overlay
    }
}

/// How "turn off displays" turns them off.
#[derive(Clone, Copy, Debug, PartialEq, Eq)]
pub enum PowerOffMethod {
    System,
    Ddc,
    Both,
}

impl Default for PowerOffMethod {
    fn default() -> (r: Self)
        ensures
            r == PowerOffMethod::System,
    {
        PowerOffMethod::System
    }
}

/// The way a monitor's brightness is changed.
#[derive(Clone, Copy, Debug, PartialEq, Eq)]
pub enum Method {
    Ddc,
    Native,
    Sdr,
    Overlay,
    Gamma,
    Unsupported,
}

impl Method {
    pub open spec fn spec_is_software(self) -> bool {
        self is Overlay || self is Gamma
    }

    /// Whether the method dims in software (overlay or gamma).
    pub fn is_software(self) -> (r: bool)
        ensures
            r == self.spec_is_software(),
    {
        match self {
            Method::Overlay | Method::Gamma => true,
            _ => false,
        }
    }

    /// Whether two methods are the same.
    pub fn same(self, other: Method) -> (r: bool)
        ensures
            r == (self == other),
    {
        match (self, other) {
            (Method::Ddc, Method::Ddc) => true,
            (Method::Native, Method::Native) => true,
            (Method::Sdr, Method::Sdr) => true,
            (Method::Overlay, Method::Overlay) => true,
            (Method::Gamma, Method::Gamma) => true,
            (Method::Unsupported, Method::Unsupported) => true,
            _ => false,
        }
    }

    /// The name the panel shows under a monitor. The native control is called "Native" on
    /// macOS, where it also covers Apple's external displays, and "Built-in" elsewhere.
    pub fn label(self, macos: bool) -> (r: &'static str)
        ensures
            r@ == spec_label(self, macos),
    {
        proof {
            reveal_strlit("DDC/CI");
            reveal_strlit("Native");
            reveal_strlit("Built-in");
            reveal_strlit("SDR content brightness (HDR)");
            reveal_strlit("Software (overlay)");
            reveal_strlit("Software (gamma)");
            reveal_strlit("Unsupported");
        }
        match self {
            Method::Ddc => "DDC/CI",
            Method::Native => if macos {
                "Native"
            } else {
                "Built-in"
            },
            Method::Sdr => "SDR content brightness (HDR)",
            Method::Overlay => "Software (overlay)",
            Method::Gamma => "Software (gamma)",
            Method::Unsupported => "Unsupported",
        }
    }
}

pub open spec fn spec_label(method: Method, macos: bool) -> Seq<char> {
    match method {
        Method::Ddc => "DDC/CI"@,
        Method::Native => if macos {
            "Native"@
        } else {
            "Built-in"@
        },
        Method::Sdr => "SDR content brightness (HDR)"@,
        Method::Overlay => "Software (overlay)"@,
        Method::Gamma => "Software (gamma)"@,
        Method::Unsupported => "Unsupported"@,
    }
}

/// What the panel shows of one monitor.
#[derive(Debug, PartialEq)]
pub struct MonitorInfo {
    pub id: MonitorId,
    pub name: String,
    pub hardware_name: String,
    pub method: Method,
    pub brightness: u8,
    pub internal: bool,
    pub hidden: bool,
    pub has_hardware: bool,
    pub hdr: bool,
}

impl Clone for MonitorInfo {
    fn clone(&self) -> (r: Self)
        ensures
            r == *self,
    {
        MonitorInfo {
            id: self.id.clone(),
            name: self.name.clone(),
            hardware_name: self.hardware_name.clone(),
            method: self.method,
            brightness: self.brightness,
            internal: self.internal,
            hidden: self.hidden,
            has_hardware: self.has_hardware,
            hdr: self.hdr,
        }
    }
}

} // verus!
