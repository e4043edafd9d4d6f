//! The command-line data model: which transport to use, which command to
//! run, and the pipeline's toggles. Argument parsing itself lives outside
//! the library; these are the plain values it hands over.

use vstd::prelude::*;

verus! {

/// A full invocation: destination address, transport, command, verbosity.
pub struct Cli {
    pub destination: String,
    pub transport: Protocol,
    pub command: Mode,
    pub verbose: bool,
}

/// Top-level command.
pub enum Mode {
    ResetEverything,
    Pixels { pixel_command: PixelCommand },
    Brightness { brightness_command: BrightnessCommand },
    Text { text_command: TextCommand },
}

/// Commands for manipulating pixels.
pub enum PixelCommand {
    Off,
    Flip,
    On,
    Image {
        send_image_options: SendImageOptions,
        image_processing_options: ImageProcessingOptions,
    },
    Screen {
        stream_options: StreamScreenOptions,
        image_processing: ImageProcessingOptions,
    },
}

/// Commands for manipulating the global brightness.
pub enum BrightnessCommand {
    Max,
    Level { brightness: u8 },
    Min,
}

/// Transport used to reach the display.
pub enum Protocol {
    Udp,
    WebSocket,
    Fake,
}

/// Commands for sending text to the screen.
pub enum TextCommand {
    Stdin { slow: bool },
}

/// Options of the screen-streaming source.
#[derive(Clone, Copy)]
pub struct StreamScreenOptions {
    pub pointer: bool,
}

/// The pipeline's toggles: each stage is enabled unless switched off,
/// plus the dithering bias (midpoint of the sample range by default).
#[derive(Clone, Copy)]
pub struct ImageProcessingOptions {
    pub no_hist: bool,
    pub no_blur: bool,
    pub no_sharp: bool,
    pub no_dither: bool,
    pub no_spacers: bool,
    pub no_aspect: bool,
    pub dither_bias: u8,
}

impl Default for ImageProcessingOptions {
    /// Every stage enabled, bias at the midpoint of the 8-bit range.
    fn default() -> (r: Self)
        ensures
            !r.no_hist,
            !r.no_blur,
            !r.no_sharp,
            !r.no_dither,
            !r.no_spacers,
            !r.no_aspect,
            r.dither_bias == 127,
    {
        ImageProcessingOptions {
            no_hist: false,
            no_blur: false,
            no_sharp: false,
            no_dither: false,
            no_spacers: false,
            no_aspect: false,
            dither_bias: 127,
        }
    }
}

/// The image file to send.
pub struct SendImageOptions {
    pub file_name: String,
}

} // verus!
