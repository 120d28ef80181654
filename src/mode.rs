use vstd::prelude::*;

verus! {

/// The lifecycle phase of the host.
#[derive(Clone, Copy, Debug, PartialEq, Eq, Structural)]
pub enum Phase {
    Uninitialized,
    InitializingWindow,
    Rendering,
}

/// A scope that nests inside a drawing frame.
#[derive(Clone, Copy, Debug, PartialEq, Eq, Structural)]
pub enum Scope {
    /// Drawing relative to a 2D camera.
    Mode2D,
    /// Drawing into a render texture.
    Texture,
}

/// The effects the embedded program may request.
#[derive(Clone, Copy, Debug, PartialEq, Eq, Structural)]
pub enum Effect {
    LogMsg,
    InitWindow,
    EndInitWindow,
    DrawCircle,
    DrawCircleGradient,
    DrawRectangleGradientV,
    DrawRectangleGradientH,
    DrawText,
    DrawRectangle,
    DrawLine,
    DrawTextureRectangle,
    GetScreenSize,
    MeasureText,
    SetTargetFPS,
    TakeScreenshot,
    SetDrawFPS,
    CreateCamera,
    CreateRenderTexture,
    UpdateCamera,
    LoadSound,
    PlaySound,
    LoadTexture,
    LoadFileToStr,
    BeginDrawingFramebuffer,
    EndDrawingFramebuffer,
    BeginMode2D,
    EndMode2D,
    BeginDrawingTexture,
    EndDrawingTexture,
}

/// The rule an effect is held to.
#[derive(Clone, Copy, Debug, PartialEq, Eq, Structural)]
pub enum Rule {
    /// Legal in every phase.
    Anytime,
    /// Legal before rendering starts.
    WindowSetup,
    /// Legal only while a window is being set up.
    EndWindowSetup,
    /// Legal once a window is being set up or exists.
    NeedsWindow,
    /// Legal only inside a drawing frame.
    Draw,
    /// Opens a drawing frame.
    BeginFrame,
    /// Closes the drawing frame.
    EndFrame,
    /// Opens a nested scope.
    BeginScope(Scope),
    /// Closes the innermost nested scope.
    EndScope(Scope),
}

pub open spec fn spec_rule(e: Effect) -> Rule {
    match e {
        Effect::LogMsg | Effect::LoadFileToStr | Effect::SetTargetFPS | Effect::SetDrawFPS => Rule::Anytime,
        Effect::InitWindow => Rule::WindowSetup,
        Effect::EndInitWindow => Rule::EndWindowSetup,
        Effect::GetScreenSize | Effect::MeasureText | Effect::TakeScreenshot | Effect::CreateCamera
        | Effect::CreateRenderTexture | Effect::UpdateCamera | Effect::LoadSound | Effect::PlaySound
        | Effect::LoadTexture => Rule::NeedsWindow,
        Effect::DrawCircle | Effect::DrawCircleGradient | Effect::DrawRectangleGradientV
        | Effect::DrawRectangleGradientH | Effect::DrawText | Effect::DrawRectangle | Effect::DrawLine
        | Effect::DrawTextureRectangle => Rule::Draw,
        Effect::BeginDrawingFramebuffer => Rule::BeginFrame,
        Effect::EndDrawingFramebuffer => Rule::EndFrame,
        Effect::BeginMode2D => Rule::BeginScope(Scope::Mode2D),
        Effect::EndMode2D => Rule::EndScope(Scope::Mode2D),
        Effect::BeginDrawingTexture => Rule::BeginScope(Scope::Texture),
        Effect::EndDrawingTexture => Rule::EndScope(Scope::Texture),
    }
}

/// The rule that governs `e`.
pub fn rule(e: Effect) -> (r: Rule)
    ensures
        r == spec_rule(e),
{
    match e {
        Effect::LogMsg | Effect::LoadFileToStr | Effect::SetTargetFPS | Effect::SetDrawFPS => Rule::Anytime,
        Effect::InitWindow => Rule::WindowSetup,
        Effect::EndInitWindow => Rule::EndWindowSetup,
        Effect::GetScreenSize | Effect::MeasureText | Effect::TakeScreenshot | Effect::CreateCamera
        | Effect::CreateRenderTexture | Effect::UpdateCamera | Effect::LoadSound | Effect::PlaySound
        | Effect::LoadTexture => Rule::NeedsWindow,
        Effect::DrawCircle | Effect::DrawCircleGradient | Effect::DrawRectangleGradientV
        | Effect::DrawRectangleGradientH | Effect::DrawText | Effect::DrawRectangle | Effect::DrawLine
        | Effect::DrawTextureRectangle => Rule::Draw,
        Effect::BeginDrawingFramebuffer => Rule::BeginFrame,
        Effect::EndDrawingFramebuffer => Rule::EndFrame,
        Effect::BeginMode2D => Rule::BeginScope(Scope::Mode2D),
        Effect::EndMode2D => Rule::EndScope(Scope::Mode2D),
        Effect::BeginDrawingTexture => Rule::BeginScope(Scope::Texture),
        Effect::EndDrawingTexture => Rule::EndScope(Scope::Texture),
    }
}

/// The mode as a mathematical value: the phase, whether a drawing frame is
/// open, and the nested scopes open inside it, outermost first.
pub struct ModeView {
    pub phase: Phase,
    pub frame_open: bool,
    pub scopes: Seq<Scope>,
}

impl ModeView {
    pub open spec fn wf(self) -> bool {
        &&& self.frame_open ==> self.phase == Phase::Rendering
        &&& self.scopes.len() > 0 ==> self.frame_open
        &&& self.scopes.no_duplicates()
    }

    pub open spec fn permits(self, e: Effect) -> bool {
        match spec_rule(e) {
            Rule::Anytime => true,
            Rule::WindowSetup => self.phase != Phase::Rendering,
            Rule::EndWindowSetup => self.phase == Phase::InitializingWindow,
            Rule::NeedsWindow => self.phase != Phase::Uninitialized,
            Rule::Draw => self.frame_open,
            Rule::BeginFrame => self.phase == Phase::Rendering && !self.frame_open,
            Rule::EndFrame => self.frame_open && self.scopes.len() == 0,
            Rule::BeginScope(s) => self.frame_open && !self.scopes.contains(s),
            Rule::EndScope(s) => self.frame_open && self.scopes.len() > 0 && self.scopes.last() == s,
        }
    }

    /// The mode after the permitted effect `e`.
    pub open spec fn after(self, e: Effect) -> ModeView {
        match e {
            Effect::InitWindow => ModeView { phase: Phase::InitializingWindow, ..self },
            Effect::EndInitWindow => ModeView { phase: Phase::Rendering, ..self },
            _ => match spec_rule(e) {
                Rule::BeginFrame => ModeView { frame_open: true, ..self },
                Rule::EndFrame => ModeView { frame_open: false, ..self },
                Rule::BeginScope(s) => ModeView { scopes: self.scopes.push(s), ..self },
                Rule::EndScope(s) => ModeView { scopes: self.scopes.drop_last(), ..self },
                _ => self,
            },
        }
    }
}

/// Why an effect was refused: the effect and the mode it was requested in.
#[derive(Clone, Copy, Debug, PartialEq, Eq, Structural)]
pub struct PermissionError {
    pub effect: Effect,
    pub phase: Phase,
    pub frame_open: bool,
}

/// The single mode of the host, consulted before every effect.
pub struct ModeState {
    phase: Phase,
    frame_open: bool,
    scopes: Vec<Scope>,
}

impl ModeState {
    pub closed spec fn view(&self) -> ModeView {
        ModeView { phase: self.phase, frame_open: self.frame_open, scopes: self.scopes@ }
    }

    /// The mode at process start: uninitialized, nothing open.
    pub fn new() -> (r: ModeState)
        ensures
            r@ == (ModeView { phase: Phase::Uninitialized, frame_open: false, scopes: Seq::empty() }),
            r@.wf(),
    {
        ModeState { phase: Phase::Uninitialized, frame_open: false, scopes: Vec::new() }
    }

    pub fn phase(&self) -> (r: Phase)
        ensures
            r == self@.phase,
    {
        self.phase
    }

    pub fn frame_open(&self) -> (r: bool)
        ensures
            r == self@.frame_open,
    {
        self.frame_open
    }

    /// The number of scopes open inside the frame.
    pub fn depth(&self) -> (r: usize)
        ensures
            r == self@.scopes.len(),
    {
        self.scopes.len()
    }

    fn scope_open(&self, s: Scope) -> (r: bool)
        ensures
            r == self@.scopes.contains(s),
    {
        let mut i: usize = 0;
        while i < self.scopes.len()
            invariant
                i <= self.scopes@.len(),
                forall|j: int| 0 <= j < i ==> self.scopes@[j] != s,
            decreases self.scopes@.len() - i,
        {
            if self.scopes[i] == s {
                assert(self.scopes@[i as int] == s);
                return true;
            }
            i = i + 1;
        }
        false
    }

    /// Whether `e` may run in the current mode.
    pub fn permits(&self, e: Effect) -> (r: bool)
        ensures
            r == self@.permits(e),
    {
        match rule(e) {
            Rule::Anytime => true,
            Rule::WindowSetup => self.phase != Phase::Rendering,
            Rule::EndWindowSetup => self.phase == Phase::InitializingWindow,
            Rule::NeedsWindow => self.phase != Phase::Uninitialized,
            Rule::Draw => self.frame_open,
            Rule::BeginFrame => self.phase == Phase::Rendering && !self.frame_open,
            Rule::EndFrame => self.frame_open && self.scopes.len() == 0,
            Rule::BeginScope(s) => self.frame_open && !self.scope_open(s),
            Rule::EndScope(s) => {
                let n = self.scopes.len();
                self.frame_open && n > 0 && self.scopes[n - 1] == s
            },
        }
    }

    /// Checks `e` against the mode and, when it is permitted, moves the mode
    /// on as `e` demands. A refused effect leaves the mode unchanged.
    pub fn update(&mut self, e: Effect) -> (r: Result<(), PermissionError>)
        requires
            old(self)@.wf(),
        ensures
            final(self)@.wf(),
            r is Ok == old(self)@.permits(e),
            r is Ok ==> final(self)@ == old(self)@.after(e),
            r is Err ==> final(self)@ == old(self)@ && r == Err::<(), PermissionError>(
                PermissionError { effect: e, phase: old(self)@.phase, frame_open: old(self)@.frame_open },
            ),
    {
        if !self.permits(e) {
            return Err(PermissionError { effect: e, phase: self.phase, frame_open: self.frame_open });
        }
        match e {
            Effect::InitWindow => {
                self.phase = Phase::InitializingWindow;
            },
            Effect::EndInitWindow => {
                self.phase = Phase::Rendering;
            },
            _ => match rule(e) {
                Rule::BeginFrame => {
                    self.frame_open = true;
                },
                Rule::EndFrame => {
                    self.frame_open = false;
                },
                Rule::BeginScope(s) => {
                    self.scopes.push(s);
                    proof {
                        assert(!old(self)@.scopes.contains(s));
                        assert forall|i: int, j: int|
                            0 <= i < self.scopes@.len() && 0 <= j < self.scopes@.len() && i != j implies
                            self.scopes@[i] != self.scopes@[j] by {
                            if i < old(self).scopes@.len() && j < old(self).scopes@.len() {
                                assert(self.scopes@[i] == old(self).scopes@[i]);
                            } else if i < old(self).scopes@.len() {
                                assert(old(self)@.scopes[i] == self.scopes@[i]);
                            } else {
                                assert(old(self)@.scopes[j] == self.scopes@[j]);
                            }
                        }
                    }
                },
                Rule::EndScope(s) => {
                    self.scopes.pop();
                    proof {
                        assert(self.scopes@ =~= old(self).scopes@.drop_last());
                        assert forall|i: int, j: int|
                            0 <= i < self.scopes@.len() && 0 <= j < self.scopes@.len() && i != j implies
                            self.scopes@[i] != self.scopes@[j] by {
                            assert(self.scopes@[i] == old(self).scopes@[i]);
                            assert(self.scopes@[j] == old(self).scopes@[j]);
                        }
                    }
                },
                _ => {},
            },
        }
        assert(self@ =~= old(self)@.after(e));
        Ok(())
    }
}

/// A drawing effect is refused in every mode without an open drawing frame,
/// and permitted in every mode with one.
pub proof fn lemma_draw_needs_frame(m: ModeView, e: Effect)
    requires
        spec_rule(e) == Rule::Draw,
    ensures
        !m.frame_open ==> !m.permits(e),
        m.frame_open ==> m.permits(e),
{
}

/// Opening a frame from rendering with nothing open makes every drawing
/// effect legal; closing it makes every drawing effect illegal again.
pub proof fn lemma_frame_brackets_drawing(m: ModeView, e: Effect)
    requires
        m.wf(),
        m.phase == Phase::Rendering,
        !m.frame_open,
        spec_rule(e) == Rule::Draw,
    ensures
        !m.permits(e),
        m.permits(Effect::BeginDrawingFramebuffer),
        m.after(Effect::BeginDrawingFramebuffer).permits(e),
        m.after(Effect::BeginDrawingFramebuffer).permits(Effect::EndDrawingFramebuffer) == (m.scopes.len() == 0),
        m.scopes.len() == 0 ==> !m.after(Effect::BeginDrawingFramebuffer).after(
            Effect::EndDrawingFramebuffer,
        ).permits(e),
{
}

/// A scope of a kind already open cannot be opened a second time, and only
/// the innermost open scope can be closed.
pub proof fn lemma_scopes_nest(m: ModeView, s: Scope, t: Scope)
    requires
        m.wf(),
        m.frame_open,
        !m.scopes.contains(s),
        s != t,
    ensures
        m.permits(begin_effect(s)),
        !m.after(begin_effect(s)).permits(begin_effect(s)),
        m.after(begin_effect(s)).permits(end_effect(s)),
        !m.after(begin_effect(s)).permits(end_effect(t)),
        m.after(begin_effect(s)).after(end_effect(s)) == m,
{
    assert(m.after(begin_effect(s)).scopes.contains(s)) by {
        assert(m.after(begin_effect(s)).scopes.last() == s);
    }
    assert(m.scopes.push(s).drop_last() =~= m.scopes);
}

pub open spec fn begin_effect(s: Scope) -> Effect {
    match s {
        Scope::Mode2D => Effect::BeginMode2D,
        Scope::Texture => Effect::BeginDrawingTexture,
    }
}

pub open spec fn end_effect(s: Scope) -> Effect {
    match s {
        Scope::Mode2D => Effect::EndMode2D,
        Scope::Texture => Effect::EndDrawingTexture,
    }
}

} // verus!
