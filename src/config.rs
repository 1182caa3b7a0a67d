use vstd::prelude::*;
use crate::error::AppError;

verus! {

/// The command-line options; each one that is given overrides the file.
pub struct Args {
    /// Path of the configuration file.
    pub config: String,
    pub port: Option<u16>,
    pub fps: Option<u32>,
    /// Compression level.
    pub compression: Option<i32>,
}

pub struct ServerConfig {
    pub host: String,
    pub port: u16,
    pub max_connections: usize,
}

pub struct CaptureConfig {
    pub fps: u32,
    pub width: Option<u32>,
    pub height: Option<u32>,
    /// Image quality, in percent.
    pub quality: u32,
}

#[derive(Clone, Copy, Debug, PartialEq, Eq, Structural)]
pub struct CompressionConfig {
    pub level: i32,
    pub enabled: bool,
}

pub struct Config {
    pub server: ServerConfig,
    pub capture: CaptureConfig,
    pub compression: CompressionConfig,
    /// How many messages each subscription may fall behind before it loses
    /// the oldest.
    pub buffer_size: usize,
}

/// The highest frame rate whose tick interval is at least one millisecond.
pub const MAX_FPS: u32 = 1000;

impl Default for Config {
    fn default() -> (r: Config)
        ensures
            r.server.host@ == "0.0.0.0"@,
            r.server.port == 8080,
            r.server.max_connections == 10,
            r.capture.fps == 30,
            r.capture.width is None,
            r.capture.height is None,
            r.capture.quality == 80,
            r.compression.level == 3,
            r.compression.enabled,
            r.buffer_size == 10,
    {
        Config {
            server: ServerConfig { host: "0.0.0.0".to_string(), port: 8080, max_connections: 10 },
            capture: CaptureConfig { fps: 30, width: None, height: None, quality: 80 },
            compression: CompressionConfig { level: 3, enabled: true },
            buffer_size: 10,
        }
    }
}

impl Config {
    /// Lets each option given on the command line replace the value read from
    /// the file.
    pub fn apply_overrides(&mut self, args: &Args)
        ensures
            final(self).server.port == match args.port {
                Some(p) => p,
                None => old(self).server.port,
            },
            final(self).capture.fps == match args.fps {
                Some(f) => f,
                None => old(self).capture.fps,
            },
            final(self).compression.level == match args.compression {
                Some(l) => l,
                None => old(self).compression.level,
            },
            final(self).server.host == old(self).server.host,
            final(self).server.max_connections == old(self).server.max_connections,
            final(self).capture.width == old(self).capture.width,
            final(self).capture.height == old(self).capture.height,
            final(self).capture.quality == old(self).capture.quality,
            final(self).compression.enabled == old(self).compression.enabled,
            final(self).buffer_size == old(self).buffer_size,
    {
        if let Some(port) = args.port {
            self.server.port = port;
        }
        if let Some(fps) = args.fps {
            self.capture.fps = fps;
        }
        if let Some(level) = args.compression {
            self.compression.level = level;
        }
    }

    /// Whether the pipeline can run on this configuration: a frame rate that
    /// gives a tick of at least one millisecond, and room for at least one
    /// message per subscription.
    pub open spec fn runnable(&self) -> bool {
        &&& 0 < self.capture.fps <= MAX_FPS
        &&& self.buffer_size > 0
    }

    pub fn validate(&self) -> (r: Result<(), AppError>)
        ensures
            r is Ok <==> self.runnable(),
            r matches Err(e) ==> e is ConfigError,
    {
        if self.capture.fps == 0 || self.capture.fps > MAX_FPS {
            return Err(AppError::ConfigError("frame rate must be between 1 and 1000".to_string()));
        }
        if self.buffer_size == 0 {
            return Err(AppError::ConfigError("buffer size must be at least 1".to_string()));
        }
        Ok(())
    }

    /// Milliseconds between two capture ticks.
    pub fn frame_interval_ms(&self) -> (r: u64)
        requires
            self.capture.fps > 0,
        ensures
            r == 1000int / (self.capture.fps as int),
    {
        1000 / self.capture.fps as u64
    }
}

} // verus!
