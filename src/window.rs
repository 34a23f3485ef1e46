use vstd::prelude::*;

verus! {

/// The requested OpenGL context profile.
#[derive(Debug, Clone, Copy, PartialEq, Eq, Structural)]
pub enum OpenGLProfile {
    Compatibility,
    Core,
}

/// The requested OpenGL API and version.
#[derive(Debug, Clone, Copy, PartialEq, Eq, Structural)]
pub enum OpenGLAPI {
    Lastest,
    GL(u8, u8),
    GLES(u8, u8),
}

/// The settings of a window to be opened, with its OpenGL context.
pub struct WindowBuilder {
    title: String,
    position: (i32, i32),
    size: (u32, u32),
    vsync: bool,
    multisample: u16,
    api: OpenGLAPI,
    profile: OpenGLProfile,
}

impl WindowBuilder {
    pub closed spec fn spec_title(&self) -> Seq<char> {
        self.title@
    }

    pub closed spec fn spec_position(&self) -> (i32, i32) {
        self.position
    }

    pub closed spec fn spec_size(&self) -> (u32, u32) {
        self.size
    }

    pub closed spec fn spec_vsync(&self) -> bool {
        self.vsync
    }

    pub closed spec fn spec_multisample(&self) -> u16 {
        self.multisample
    }

    pub closed spec fn spec_api(&self) -> OpenGLAPI {
        self.api
    }

    pub closed spec fn spec_profile(&self) -> OpenGLProfile {
        self.profile
    }

    /// The default settings: a 512 by 512 window at the origin, titled
    /// "Lemon3D - Window", without vsync or multisampling, on the latest
    /// core-profile OpenGL.
    pub fn new() -> (r: WindowBuilder)
        ensures
            r.spec_title() == "Lemon3D - Window"@,
            r.spec_position() == (0i32, 0i32),
            r.spec_size() == (512u32, 512u32),
            !r.spec_vsync(),
            r.spec_multisample() == 0,
            r.spec_api() == OpenGLAPI::Lastest,
            r.spec_profile() == OpenGLProfile::Core,
    {
        WindowBuilder {
            title: "Lemon3D - Window".to_owned(),
            position: (0, 0),
            size: (512, 512),
            vsync: false,
            multisample: 0,
            api: OpenGLAPI::Lastest,
            profile: OpenGLProfile::Core,
        }
    }

    /// Requests a title for the window.
    pub fn with_title(&mut self, title: &str) -> (r: &mut Self)
        ensures
            *final(self) == *final(r),
            r.spec_title() == title@,
            r.spec_position() == old(self).spec_position(),
            r.spec_size() == old(self).spec_size(),
            r.spec_vsync() == old(self).spec_vsync(),
            r.spec_multisample() == old(self).spec_multisample(),
            r.spec_api() == old(self).spec_api(),
            r.spec_profile() == old(self).spec_profile(),
    {
        self.title = title.to_owned();
        self
    }

    /// Requests a position for the window.
    pub fn with_position(&mut self, position: (i32, i32)) -> (r: &mut Self)
        ensures
            *final(self) == *final(r),
            r.spec_position() == position,
            r.spec_title() == old(self).spec_title(),
            r.spec_size() == old(self).spec_size(),
            r.spec_vsync() == old(self).spec_vsync(),
            r.spec_multisample() == old(self).spec_multisample(),
            r.spec_api() == old(self).spec_api(),
            r.spec_profile() == old(self).spec_profile(),
    {
        self.position = position;
        self
    }

    /// Requests the dimensions of the window.
    pub fn with_dimensions(&mut self, width: u32, height: u32) -> (r: &mut Self)
        ensures
            *final(self) == *final(r),
            r.spec_size() == (width, height),
            r.spec_title() == old(self).spec_title(),
            r.spec_position() == old(self).spec_position(),
            r.spec_vsync() == old(self).spec_vsync(),
            r.spec_multisample() == old(self).spec_multisample(),
            r.spec_api() == old(self).spec_api(),
            r.spec_profile() == old(self).spec_profile(),
    {
        self.size = (width, height);
        self
    }

    /// Sets the multisampling level; 0 disables multisampling.
    pub fn with_multisample(&mut self, multisample: u16) -> (r: &mut Self)
        ensures
            *final(self) == *final(r),
            r.spec_multisample() == multisample,
            r.spec_title() == old(self).spec_title(),
            r.spec_position() == old(self).spec_position(),
            r.spec_size() == old(self).spec_size(),
            r.spec_vsync() == old(self).spec_vsync(),
            r.spec_api() == old(self).spec_api(),
            r.spec_profile() == old(self).spec_profile(),
    {
        self.multisample = multisample;
        self
    }

    /// Sets the OpenGL context profile.
    pub fn with_profile(&mut self, profile: OpenGLProfile) -> (r: &mut Self)
        ensures
            *final(self) == *final(r),
            r.spec_profile() == profile,
            r.spec_title() == old(self).spec_title(),
            r.spec_position() == old(self).spec_position(),
            r.spec_size() == old(self).spec_size(),
            r.spec_vsync() == old(self).spec_vsync(),
            r.spec_multisample() == old(self).spec_multisample(),
            r.spec_api() == old(self).spec_api(),
    {
        self.profile = profile;
        self
    }

    /// Sets the OpenGL API and version to request.
    pub fn with_api(&mut self, api: OpenGLAPI) -> (r: &mut Self)
        ensures
            *final(self) == *final(r),
            r.spec_api() == api,
            r.spec_title() == old(self).spec_title(),
            r.spec_position() == old(self).spec_position(),
            r.spec_size() == old(self).spec_size(),
            r.spec_vsync() == old(self).spec_vsync(),
            r.spec_multisample() == old(self).spec_multisample(),
            r.spec_profile() == old(self).spec_profile(),
    {
        self.api = api;
        self
    }
}

} // verus!
