//! The data model: one monitor snapshot, one audio endpoint, the desired
//! audio configuration, and the persisted `Profile` that bundles them.
//!
//! Each executable type has a mathematical view (`...View`) over `Seq<char>`
//! and plain integers; every contract in the crate speaks of those views.

use vstd::prelude::*;

verus! {

/// One connected monitor at the moment a profile was saved.
///
/// The scale factor is kept in thousandths (`scale_milli`, so `1000` is a
/// factor of one) to stay in integer arithmetic.
pub struct DisplayInfo {
    /// OS-assigned numeric identifier; not stable across reconnects.
    pub id: u32,
    /// Human-readable name.
    pub name: String,
    /// Width in pixels.
    pub width: u32,
    /// Height in pixels.
    pub height: u32,
    /// Horizontal origin in the virtual desktop coordinate space.
    pub x: i32,
    /// Vertical origin in the virtual desktop coordinate space.
    pub y: i32,
    /// Scale factor in thousandths.
    pub scale_milli: u32,
    /// Whether this is the primary monitor.
    pub is_primary: bool,
    /// Rotation in degrees; 0, 90, 180 or 270 expected, not validated.
    pub rotation: u32,
}

/// Mathematical image of a `DisplayInfo`.
#[verifier::ext_equal]
pub struct DisplayInfoView {
    pub id: u32,
    pub name: Seq<char>,
    pub width: u32,
    pub height: u32,
    pub x: i32,
    pub y: i32,
    pub scale_milli: u32,
    pub is_primary: bool,
    pub rotation: u32,
}

impl View for DisplayInfo {
    type V = DisplayInfoView;

    open spec fn view(&self) -> DisplayInfoView {
        DisplayInfoView {
            id: self.id,
            name: self.name@,
            width: self.width,
            height: self.height,
            x: self.x,
            y: self.y,
            scale_milli: self.scale_milli,
            is_primary: self.is_primary,
            rotation: self.rotation,
        }
    }
}

/// One audio endpoint as reported by enumeration.
pub struct AudioDevice {
    /// Platform-specific identifier, opaque to this library.
    pub id: String,
    /// Display name.
    pub name: String,
    /// Whether the OS reports it as the default device.
    pub is_default: bool,
    /// `"output"` or `"input"`, kept as a plain string.
    pub device_type: String,
}

/// Mathematical image of an `AudioDevice`.
#[verifier::ext_equal]
pub struct AudioDeviceView {
    pub id: Seq<char>,
    pub name: Seq<char>,
    pub is_default: bool,
    pub device_type: Seq<char>,
}

impl View for AudioDevice {
    type V = AudioDeviceView;

    open spec fn view(&self) -> AudioDeviceView {
        AudioDeviceView {
            id: self.id@,
            name: self.name@,
            is_default: self.is_default,
            device_type: self.device_type@,
        }
    }
}

/// The audio configuration a profile asks for.
pub struct AudioSettings {
    /// Output device identifier, if one should be selected.
    pub output_device: Option<String>,
    /// Input device identifier, if one should be selected.
    pub input_device: Option<String>,
    /// Output volume, 0 to 100 expected, not validated.
    pub output_volume: u32,
    /// Input volume, 0 to 100 expected, not validated.
    pub input_volume: u32,
}

/// Mathematical image of an `AudioSettings`.
#[verifier::ext_equal]
pub struct AudioSettingsView {
    pub output_device: Option<Seq<char>>,
    pub input_device: Option<Seq<char>>,
    pub output_volume: u32,
    pub input_volume: u32,
}

/// The view of an optional string.
pub open spec fn opt_string_view(o: &Option<String>) -> Option<Seq<char>> {
    match o {
        Some(s) => Some(s@),
        None => None,
    }
}

impl View for AudioSettings {
    type V = AudioSettingsView;

    open spec fn view(&self) -> AudioSettingsView {
        AudioSettingsView {
            output_device: opt_string_view(&self.output_device),
            input_device: opt_string_view(&self.input_device),
            output_volume: self.output_volume,
            input_volume: self.input_volume,
        }
    }
}

/// The persisted unit: a named snapshot of displays and audio settings.
///
/// The store keeps identifiers unique; nothing here mutates a profile's
/// contents once it is handed in.
pub struct Profile {
    /// Caller-supplied unique identifier.
    pub id: String,
    /// Display name.
    pub name: String,
    /// Ordered monitor snapshots.
    pub displays: Vec<DisplayInfo>,
    /// Desired audio configuration.
    pub audio_settings: AudioSettings,
    /// Creation timestamp; format unspecified and unenforced.
    pub created_at: String,
}

/// Mathematical image of a `Profile`.
#[verifier::ext_equal]
pub struct ProfileView {
    pub id: Seq<char>,
    pub name: Seq<char>,
    pub displays: Seq<DisplayInfoView>,
    pub audio_settings: AudioSettingsView,
    pub created_at: Seq<char>,
}

impl View for Profile {
    type V = ProfileView;

    open spec fn view(&self) -> ProfileView {
        ProfileView {
            id: self.id@,
            name: self.name@,
            displays: self.displays@.map_values(|d: DisplayInfo| d@),
            audio_settings: self.audio_settings@,
            created_at: self.created_at@,
        }
    }
}

} // verus!
