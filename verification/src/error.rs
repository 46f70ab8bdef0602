//! Error types for soorat, and the decimal formatting their messages use.

use vstd::prelude::*;

verus! {

/// Errors produced by soorat.
#[non_exhaustive]
#[derive(Debug)]
pub enum RenderError {
    AdapterNotFound,
    DeviceRequest(String),
    SurfaceConfig(String),
    SurfaceTexture(String),
    Shader(String),
    Pipeline(String),
    Texture(String),
    Model(String),
    Window(String),
    Screenshot(String),
    /// Any other error, carried by its message.
    Other(String),
}

pub type Result<T> = std::result::Result<T, RenderError>;

/// The message an error displays.
pub open spec fn error_message(e: RenderError) -> Seq<char> {
    match e {
        RenderError::AdapterNotFound => "GPU adapter not found"@,
        RenderError::DeviceRequest(m) => "GPU device request failed: "@ + m@,
        RenderError::SurfaceConfig(m) => "surface configuration failed: "@ + m@,
        RenderError::SurfaceTexture(m) => "surface texture acquisition failed: "@ + m@,
        RenderError::Shader(m) => "shader compilation failed: "@ + m@,
        RenderError::Pipeline(m) => "pipeline creation failed: "@ + m@,
        RenderError::Texture(m) => "texture load failed: "@ + m@,
        RenderError::Model(m) => "model load failed: "@ + m@,
        RenderError::Window(m) => "window creation failed: "@ + m@,
        RenderError::Screenshot(m) => "screenshot failed: "@ + m@,
        RenderError::Other(m) => m@,
    }
}

impl RenderError {
    /// The message this error displays.
    pub fn to_string(&self) -> (s: String)
        ensures
            s@ == error_message(*self),
    {
        match self {
            RenderError::AdapterNotFound => String::from_str("GPU adapter not found"),
            RenderError::DeviceRequest(m) => String::from_str("GPU device request failed: ").concat(
                m.as_str(),
            ),
            RenderError::SurfaceConfig(m) => String::from_str(
                "surface configuration failed: ",
            ).concat(m.as_str()),
            RenderError::SurfaceTexture(m) => String::from_str(
                "surface texture acquisition failed: ",
            ).concat(m.as_str()),
            RenderError::Shader(m) => String::from_str("shader compilation failed: ").concat(
                m.as_str(),
            ),
            RenderError::Pipeline(m) => String::from_str("pipeline creation failed: ").concat(
                m.as_str(),
            ),
            RenderError::Texture(m) => String::from_str("texture load failed: ").concat(m.as_str()),
            RenderError::Model(m) => String::from_str("model load failed: ").concat(m.as_str()),
            RenderError::Window(m) => String::from_str("window creation failed: ").concat(
                m.as_str(),
            ),
            RenderError::Screenshot(m) => String::from_str("screenshot failed: ").concat(
                m.as_str(),
            ),
            RenderError::Other(m) => m.clone(),
        }
    }
}

/// The character of decimal digit `d` (0..10).
pub open spec fn digit_char(d: nat) -> char {
    (48 + d) as char
}

/// Decimal notation of `n`, most significant digit first, no leading zeros.
pub open spec fn decimal(n: nat) -> Seq<char>
    decreases n,
{
    if n < 10 {
        seq![digit_char(n)]
    } else {
        decimal(n / 10).push(digit_char(n % 10))
    }
}

fn digit_str(d: u64) -> (s: &'static str)
    requires
        d < 10,
    ensures
        s@ == seq![digit_char(d as nat)],
{
    proof {
        reveal_strlit("0");
        reveal_strlit("1");
        reveal_strlit("2");
        reveal_strlit("3");
        reveal_strlit("4");
        reveal_strlit("5");
        reveal_strlit("6");
        reveal_strlit("7");
        reveal_strlit("8");
        reveal_strlit("9");
    }
    let s = match d {
        0 => "0",
        1 => "1",
        2 => "2",
        3 => "3",
        4 => "4",
        5 => "5",
        6 => "6",
        7 => "7",
        8 => "8",
        _ => "9",
    };
    assert(s@ =~= seq![digit_char(d as nat)]);
    s
}

/// Decimal notation of `n`.
pub fn decimal_string(n: u64) -> (s: String)
    ensures
        s@ == decimal(n as nat),
{
    let mut s = String::from_str(digit_str(n % 10));
    let mut m = n / 10;
    while m > 0
        invariant
            m > 0 ==> decimal(n as nat) == decimal(m as nat) + s@,
            m == 0 ==> decimal(n as nat) == s@,
        decreases m,
    {
        let ghost old_s = s@;
        let d = digit_str(m % 10);
        s = String::from_str(d).concat(s.as_str());
        proof {
            if m >= 10 {
                assert(decimal(m as nat) == decimal((m / 10) as nat).push(digit_char((m % 10) as nat)));
                assert(decimal((m / 10) as nat).push(digit_char((m % 10) as nat)) + old_s
                    =~= decimal((m / 10) as nat) + s@);
            } else {
                assert(decimal(m as nat) + old_s =~= s@);
            }
        }
        m = m / 10;
    }
    s
}

} // verus!
