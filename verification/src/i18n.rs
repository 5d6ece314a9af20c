//! Interface language and the translated strings of the launcher.
use vstd::prelude::*;
use crate::text::{concat2, concat3, decimal, decimal_string, has_prefix, push_decimal, push_str, owned, chars_of, starts_with};

verus! {

/// The `interface.language` setting.
#[derive(Debug, Clone, Copy, PartialEq, Eq, Structural)]
pub enum Language {
    Auto,
    Spanish,
    English,
}

#[derive(Debug, Clone, Copy, PartialEq, Eq, Structural)]
enum Locale {
    Spanish,
    English,
}

/// The strings of the interface in one language.
#[derive(Clone, Copy)]
pub struct Translator(Locale);

/// Whether one of the locale names of the environment is Spanish.
pub open spec fn environment_is_spanish(locales: Seq<Seq<char>>) -> bool {
    exists|i: int| 0 <= i < locales.len() && has_prefix(#[trigger] locales[i], "es"@)
}

/// Decides the language of `Language::Auto` from the locale names of the
/// environment (the pieces of `LANGUAGE`, then `LC_ALL`, `LC_MESSAGES` and
/// `LANG` where they are set): Spanish when one of them starts with `es`.
pub fn locale_is_spanish(locales: &Vec<String>) -> (r: bool)
    ensures
        r == environment_is_spanish(locales@.map_values(|s: String| s@)),
{
    let ghost names = locales@.map_values(|s: String| s@);
    let mut i: usize = 0;
    while i < locales.len()
        invariant
            0 <= i <= locales@.len(),
            names == locales@.map_values(|s: String| s@),
            forall|k: int| 0 <= k < i ==> !has_prefix(#[trigger] names[k], "es"@),
        decreases locales@.len() - i,
    {
        let c = chars_of(locales[i].as_str());
        if starts_with(&c, "es") {
            assert(has_prefix(names[i as int], "es"@));
            return true;
        }
        i += 1;
    }
    false
}

impl Translator {
    /// Whether this translator speaks Spanish.
    pub closed spec fn spanish(self) -> bool {
        self.0 == Locale::Spanish
    }

    /// The translator for `language`; `Auto` follows the environment's
    /// locale names (see `locale_is_spanish`).
    pub fn new(language: Language, environment: &Vec<String>) -> (r: Self)
        ensures
            r.spanish() == match language {
                Language::Auto => environment_is_spanish(environment@.map_values(|s: String| s@)),
                Language::Spanish => true,
                Language::English => false,
            },
    {
        match language {
            Language::Auto => Self::from_environment(environment),
            Language::Spanish => Translator(Locale::Spanish),
            Language::English => Translator(Locale::English),
        }
    }

    /// The translator that the environment's locale names ask for.
    pub fn from_environment(environment: &Vec<String>) -> (r: Self)
        ensures
            r.spanish() == environment_is_spanish(environment@.map_values(|s: String| s@)),
    {
        if locale_is_spanish(environment) {
            Translator(Locale::Spanish)
        } else {
            Translator(Locale::English)
        }
    }

    pub fn is_spanish(self) -> (r: bool)
        ensures
            r == self.spanish(),
    {
        match self.0 {
            Locale::Spanish => true,
            Locale::English => false,
        }
    }

    pub fn unknown_option(self, option: &str) -> (r: String)
        ensures
            r@ == (if self.spanish() { "Opción desconocida: "@ + option@ + ". Usa --help"@ } else {
                "Unknown option: "@ + option@ + ". Use --help"@
            }),
    {
        if self.is_spanish() {
            concat3("Opción desconocida: ", option, ". Usa --help")
        } else {
            concat3("Unknown option: ", option, ". Use --help")
        }
    }

    pub fn skipped_entries(self, count: usize) -> (r: String)
        ensures
            r@ == (if self.spanish() {
                "Se omitieron "@ + decimal(count as nat) + " accesos inválidos"@
            } else {
                "Skipped "@ + decimal(count as nat) + " invalid entries"@
            }),
    {
        let mut s = owned(if self.is_spanish() { "Se omitieron " } else { "Skipped " });
        push_decimal(&mut s, count as u64);
        push_str(&mut s, if self.is_spanish() { " accesos inválidos" } else { " invalid entries" });
        s
    }

    pub fn program_missing(self, program: &str) -> (r: String)
        ensures
            r@ == (if self.spanish() {
                "No se encontró "@ + program@ + " en PATH; Lapi Launcher sigue activo"@
            } else {
                program@ + " was not found in PATH; Lapi Launcher remains active"@
            }),
    {
        if self.is_spanish() {
            concat3("No se encontró ", program, " en PATH; Lapi Launcher sigue activo")
        } else {
            concat2(program, " was not found in PATH; Lapi Launcher remains active")
        }
    }

    pub fn opening(self, name: &str) -> (r: String)
        ensures
            r@ == (if self.spanish() { "Abriendo "@ + name@ } else { "Opening "@ + name@ }),
    {
        if self.is_spanish() {
            concat2("Abriendo ", name)
        } else {
            concat2("Opening ", name)
        }
    }

    pub fn cannot_open(self, name: &str) -> (r: String)
        ensures
            r@ == (if self.spanish() { "No se pudo abrir "@ + name@ } else { "Could not open "@ + name@ }),
    {
        if self.is_spanish() {
            concat2("No se pudo abrir ", name)
        } else {
            concat2("Could not open ", name)
        }
    }

    pub fn desktop_updated(self, name: &str) -> (r: String)
        ensures
            r@ == (if self.spanish() { "Escritorio actualizado: "@ + name@ } else { "Desktop updated: "@ + name@ }),
    {
        if self.is_spanish() {
            concat2("Escritorio actualizado: ", name)
        } else {
            concat2("Desktop updated: ", name)
        }
    }

    /// `status` is the exit status as the platform prints it.
    pub fn child_failed(self, name: &str, status: &str) -> (r: String)
        ensures
            r@ == (if self.spanish() { name@ + " terminó con "@ + status@ } else {
                name@ + " exited with "@ + status@
            }),
    {
        if self.is_spanish() {
            concat3(name, " terminó con ", status)
        } else {
            concat3(name, " exited with ", status)
        }
    }

    /// The label of the drive at zero-based `index`.
    pub fn drive_number(self, index: usize) -> (r: String)
        requires
            index < usize::MAX,
        ensures
            r@ == (if self.spanish() { "Unidad"@ } else { "Drive"@ }) + " "@ + decimal(index as nat + 1),
    {
        let mut s = owned(self.drive());
        push_str(&mut s, " ");
        push_decimal(&mut s, (index + 1) as u64);
        s
    }

    pub fn uptime(self, hours: u64, minutes: u64) -> (r: String)
        ensures
            r@ == decimal(hours as nat) + " h "@ + decimal(minutes as nat) + " min"@,
    {
        let mut s = decimal_string(hours);
        push_str(&mut s, " h ");
        push_decimal(&mut s, minutes);
        push_str(&mut s, " min");
        s
    }

    pub fn command_help(self) -> (r: &'static str)
        ensures
            r@ == (if self.spanish() { "Lapi Launcher · aplicaciones Linux en tu terminal\n\nUso: lapi-launcher [opciones]\n\n  Configuración          Usuario: $XDG_CONFIG_HOME/lapi-launcher/config.toml (o ~/.config)\n                         Global: /etc/lapi-launcher/config.toml\n  --list                 Listar aplicaciones sin abrir la TUI\n  --no-images            Usar iniciales en lugar de imágenes\n  --print-default-config Imprimir configuración de ejemplo\n  --version              Mostrar versión\n  --help                 Mostrar esta ayuda"@ } else { "Lapi Launcher · Linux applications in your terminal\n\nUsage: lapi-launcher [options]\n\n  Configuration          User: $XDG_CONFIG_HOME/lapi-launcher/config.toml (or ~/.config)\n                         Global: /etc/lapi-launcher/config.toml\n  --list                 List applications without opening the TUI\n  --no-images            Use initials instead of images\n  --print-default-config Print the example configuration\n  --version              Show the version\n  --help                 Show this help"@ }),
    {
        if self.is_spanish() {
            "Lapi Launcher · aplicaciones Linux en tu terminal\n\nUso: lapi-launcher [opciones]\n\n  Configuración          Usuario: $XDG_CONFIG_HOME/lapi-launcher/config.toml (o ~/.config)\n                         Global: /etc/lapi-launcher/config.toml\n  --list                 Listar aplicaciones sin abrir la TUI\n  --no-images            Usar iniciales en lugar de imágenes\n  --print-default-config Imprimir configuración de ejemplo\n  --version              Mostrar versión\n  --help                 Mostrar esta ayuda"
        } else {
            "Lapi Launcher · Linux applications in your terminal\n\nUsage: lapi-launcher [options]\n\n  Configuration          User: $XDG_CONFIG_HOME/lapi-launcher/config.toml (or ~/.config)\n                         Global: /etc/lapi-launcher/config.toml\n  --list                 List applications without opening the TUI\n  --no-images            Use initials instead of images\n  --print-default-config Print the example configuration\n  --version              Show the version\n  --help                 Show this help"
        }
    }

    pub fn config_option_message(self) -> (r: &'static str)
        ensures
            r@ == (if self.spanish() { "Lapi busca primero la configuración de usuario y después /etc/lapi-launcher/config.toml"@ } else { "Lapi checks the user configuration first and then /etc/lapi-launcher/config.toml"@ }),
    {
        if self.is_spanish() {
            "Lapi busca primero la configuración de usuario y después /etc/lapi-launcher/config.toml"
        } else {
            "Lapi checks the user configuration first and then /etc/lapi-launcher/config.toml"
        }
    }

    pub fn interactive_terminal_required(self) -> (r: &'static str)
        ensures
            r@ == (if self.spanish() { "Ejecuta Lapi dentro de un terminal interactivo, o usa --list"@ } else { "Run Lapi in an interactive terminal, or use --list"@ }),
    {
        if self.is_spanish() {
            "Ejecuta Lapi dentro de un terminal interactivo, o usa --list"
        } else {
            "Run Lapi in an interactive terminal, or use --list"
        }
    }

    pub fn compact_terminal(self) -> (r: &'static str)
        ensures
            r@ == (if self.spanish() { "LAPI\nAmplía el terminal a 40 × 20.\nEsc / Ctrl+C: salir"@ } else { "LAPI\nExpand the terminal to 40 × 20.\nEsc / Ctrl+C: quit"@ }),
    {
        if self.is_spanish() {
            "LAPI\nAmplía el terminal a 40 × 20.\nEsc / Ctrl+C: salir"
        } else {
            "LAPI\nExpand the terminal to 40 × 20.\nEsc / Ctrl+C: quit"
        }
    }

    pub fn tagline(self) -> (r: &'static str)
        ensures
            r@ == (if self.spanish() { "  LANZADOR DE APLICACIONES"@ } else { "  APPLICATION LAUNCHER"@ }),
    {
        if self.is_spanish() {
            "  LANZADOR DE APLICACIONES"
        } else {
            "  APPLICATION LAUNCHER"
        }
    }

    pub fn footer_home(self) -> (r: &'static str)
        ensures
            r@ == (if self.spanish() { "Rueda / PgUp / PgDn desplazar  ↑↓←→ mover  Tab sección  F1 ayuda  Esc salir"@ } else { "Wheel / PgUp / PgDn scroll  ↑↓←→ move  Tab section  F1 help  Esc quit"@ }),
    {
        if self.is_spanish() {
            "Rueda / PgUp / PgDn desplazar  ↑↓←→ mover  Tab sección  F1 ayuda  Esc salir"
        } else {
            "Wheel / PgUp / PgDn scroll  ↑↓←→ move  Tab section  F1 help  Esc quit"
        }
    }

    pub fn footer_search(self) -> (r: &'static str)
        ensures
            r@ == (if self.spanish() { "↑↓ mover  Enter abrir  Esc volver  F1 ayuda"@ } else { "↑↓ move  Enter open  Esc back  F1 help"@ }),
    {
        if self.is_spanish() {
            "↑↓ mover  Enter abrir  Esc volver  F1 ayuda"
        } else {
            "↑↓ move  Enter open  Esc back  F1 help"
        }
    }

    pub fn footer_default(self) -> (r: &'static str)
        ensures
            r@ == (if self.spanish() { "↑↓←→ mover  Enter abrir  Tab sección  F1 ayuda  Esc salir"@ } else { "↑↓←→ move  Enter open  Tab section  F1 help  Esc quit"@ }),
    {
        if self.is_spanish() {
            "↑↓←→ mover  Enter abrir  Tab sección  F1 ayuda  Esc salir"
        } else {
            "↑↓←→ move  Enter open  Tab section  F1 help  Esc quit"
        }
    }

    pub fn system_information(self) -> (r: &'static str)
        ensures
            r@ == (if self.spanish() { "Información del sistema"@ } else { "System information"@ }),
    {
        if self.is_spanish() {
            "Información del sistema"
        } else {
            "System information"
        }
    }

    pub fn system_information_scroll(self) -> (r: &'static str)
        ensures
            r@ == (if self.spanish() { "Información del sistema · Ctrl+↑↓ / rueda"@ } else { "System information · Ctrl+↑↓ / wheel"@ }),
    {
        if self.is_spanish() {
            "Información del sistema · Ctrl+↑↓ / rueda"
        } else {
            "System information · Ctrl+↑↓ / wheel"
        }
    }

    pub fn search(self) -> (r: &'static str)
        ensures
            r@ == (if self.spanish() { " Buscar "@ } else { " Search "@ }),
    {
        if self.is_spanish() {
            " Buscar "
        } else {
            " Search "
        }
    }

    pub fn search_placeholder(self) -> (r: &'static str)
        ensures
            r@ == (if self.spanish() { " Busca una aplicación o archivo…"@ } else { " Search for an application or file…"@ }),
    {
        if self.is_spanish() {
            " Busca una aplicación o archivo…"
        } else {
            " Search for an application or file…"
        }
    }

    pub fn desktop(self) -> (r: &'static str)
        ensures
            r@ == (if self.spanish() { "Escritorio"@ } else { "Desktop"@ }),
    {
        if self.is_spanish() {
            "Escritorio"
        } else {
            "Desktop"
        }
    }

    pub fn recent(self) -> (r: &'static str)
        ensures
            r@ == (if self.spanish() { "Recientes"@ } else { "Recent"@ }),
    {
        if self.is_spanish() {
            "Recientes"
        } else {
            "Recent"
        }
    }

    pub fn no_matches_clear(self) -> (r: &'static str)
        ensures
            r@ == (if self.spanish() { "  Sin coincidencias. Esc limpia la búsqueda."@ } else { "  No matches. Esc clears the search."@ }),
    {
        if self.is_spanish() {
            "  Sin coincidencias. Esc limpia la búsqueda."
        } else {
            "  No matches. Esc clears the search."
        }
    }

    pub fn no_matches_back(self) -> (r: &'static str)
        ensures
            r@ == (if self.spanish() { "  Sin coincidencias. Esc vuelve al escritorio."@ } else { "  No matches. Esc returns to the desktop."@ }),
    {
        if self.is_spanish() {
            "  Sin coincidencias. Esc vuelve al escritorio."
        } else {
            "  No matches. Esc returns to the desktop."
        }
    }

    pub fn no_recent(self) -> (r: &'static str)
        ensures
            r@ == (if self.spanish() { "  Las aplicaciones que abras aparecerán aquí."@ } else { "  Applications you open will appear here."@ }),
    {
        if self.is_spanish() {
            "  Las aplicaciones que abras aparecerán aquí."
        } else {
            "  Applications you open will appear here."
        }
    }

    pub fn no_desktop(self) -> (r: &'static str)
        ensures
            r@ == (if self.spanish() { "  No hay accesos a aplicaciones en tu escritorio."@ } else { "  There are no application entries on your desktop."@ }),
    {
        if self.is_spanish() {
            "  No hay accesos a aplicaciones en tu escritorio."
        } else {
            "  There are no application entries on your desktop."
        }
    }

    pub fn help_title(self) -> (r: &'static str)
        ensures
            r@ == (if self.spanish() { " Lapi · controles "@ } else { " Lapi · controls "@ }),
    {
        if self.is_spanish() {
            " Lapi · controles "
        } else {
            " Lapi · controls "
        }
    }

    pub fn launcher_button(self) -> (r: &'static str)
        ensures
            r@ == (if self.spanish() { " LANZADOR "@ } else { " LAUNCHER "@ }),
    {
        if self.is_spanish() {
            " LANZADOR "
        } else {
            " LAUNCHER "
        }
    }

    pub fn installer_button(self) -> (r: &'static str)
        ensures
            r@ == (if self.spanish() { " INSTALADOR "@ } else { " INSTALLER "@ }),
    {
        if self.is_spanish() {
            " INSTALADOR "
        } else {
            " INSTALLER "
        }
    }

    pub fn manager_button(self) -> (r: &'static str)
        ensures
            r@ == (if self.spanish() { " GESTOR "@ } else { " MANAGER "@ }),
    {
        if self.is_spanish() {
            " GESTOR "
        } else {
            " MANAGER "
        }
    }

    pub fn ready(self) -> (r: &'static str)
        ensures
            r@ == (if self.spanish() { "Listo para abrir aplicaciones"@ } else { "Ready to open applications"@ }),
    {
        if self.is_spanish() {
            "Listo para abrir aplicaciones"
        } else {
            "Ready to open applications"
        }
    }

    pub fn applications_updated(self) -> (r: &'static str)
        ensures
            r@ == (if self.spanish() { "Aplicaciones actualizadas"@ } else { "Applications updated"@ }),
    {
        if self.is_spanish() {
            "Aplicaciones actualizadas"
        } else {
            "Applications updated"
        }
    }

    pub fn configured_logo_unavailable(self) -> (r: &'static str)
        ensures
            r@ == (if self.spanish() { "No se pudo cargar el logo configurado"@ } else { "Could not load the configured logo"@ }),
    {
        if self.is_spanish() {
            "No se pudo cargar el logo configurado"
        } else {
            "Could not load the configured logo"
        }
    }

    pub fn invalid_history(self) -> (r: &'static str)
        ensures
            r@ == (if self.spanish() { "El historial de aplicaciones no es válido"@ } else { "The application history is invalid"@ }),
    {
        if self.is_spanish() {
            "El historial de aplicaciones no es válido"
        } else {
            "The application history is invalid"
        }
    }

    pub fn cannot_read_history(self) -> (r: &'static str)
        ensures
            r@ == (if self.spanish() { "No se pudo leer el historial"@ } else { "Could not read the application history"@ }),
    {
        if self.is_spanish() {
            "No se pudo leer el historial"
        } else {
            "Could not read the application history"
        }
    }

    pub fn invalid_history_path(self) -> (r: &'static str)
        ensures
            r@ == (if self.spanish() { "Ruta de historial inválida"@ } else { "Invalid history path"@ }),
    {
        if self.is_spanish() {
            "Ruta de historial inválida"
        } else {
            "Invalid history path"
        }
    }

    pub fn cannot_create_history_directory(self) -> (r: &'static str)
        ensures
            r@ == (if self.spanish() { "No se pudo crear el directorio del historial"@ } else { "Could not create the history directory"@ }),
    {
        if self.is_spanish() {
            "No se pudo crear el directorio del historial"
        } else {
            "Could not create the history directory"
        }
    }

    pub fn cannot_create_history_file(self) -> (r: &'static str)
        ensures
            r@ == (if self.spanish() { "No se pudo crear el archivo temporal del historial"@ } else { "Could not create the temporary history file"@ }),
    {
        if self.is_spanish() {
            "No se pudo crear el archivo temporal del historial"
        } else {
            "Could not create the temporary history file"
        }
    }

    pub fn cannot_save_history(self) -> (r: &'static str)
        ensures
            r@ == (if self.spanish() { "No se pudo guardar el historial"@ } else { "Could not save the application history"@ }),
    {
        if self.is_spanish() {
            "No se pudo guardar el historial"
        } else {
            "Could not save the application history"
        }
    }

    pub fn unavailable(self) -> (r: &'static str)
        ensures
            r@ == (if self.spanish() { "No disponible"@ } else { "Unavailable"@ }),
    {
        if self.is_spanish() {
            "No disponible"
        } else {
            "Unavailable"
        }
    }

    pub fn operating_system(self) -> (r: &'static str)
        ensures
            r@ == (if self.spanish() { "Sistema operativo"@ } else { "Operating system"@ }),
    {
        if self.is_spanish() {
            "Sistema operativo"
        } else {
            "Operating system"
        }
    }

    pub fn desktop_environment(self) -> (r: &'static str)
        ensures
            r@ == (if self.spanish() { "Entorno de escritorio"@ } else { "Desktop environment"@ }),
    {
        if self.is_spanish() {
            "Entorno de escritorio"
        } else {
            "Desktop environment"
        }
    }

    pub fn model(self) -> (r: &'static str)
        ensures
            r@ == (if self.spanish() { "Modelo"@ } else { "Model"@ }),
    {
        if self.is_spanish() {
            "Modelo"
        } else {
            "Model"
        }
    }

    pub fn threads(self) -> (r: &'static str)
        ensures
            r@ == (if self.spanish() { "Hilos"@ } else { "Threads"@ }),
    {
        if self.is_spanish() {
            "Hilos"
        } else {
            "Threads"
        }
    }

    pub fn total_memory(self) -> (r: &'static str)
        ensures
            r@ == (if self.spanish() { "RAM total"@ } else { "Total RAM"@ }),
    {
        if self.is_spanish() {
            "RAM total"
        } else {
            "Total RAM"
        }
    }

    pub fn architecture(self) -> (r: &'static str)
        ensures
            r@ == (if self.spanish() { "Arquitectura"@ } else { "Architecture"@ }),
    {
        if self.is_spanish() {
            "Arquitectura"
        } else {
            "Architecture"
        }
    }

    pub fn uptime_label(self) -> (r: &'static str)
        ensures
            r@ == (if self.spanish() { "Tiempo activo"@ } else { "Uptime"@ }),
    {
        if self.is_spanish() {
            "Tiempo activo"
        } else {
            "Uptime"
        }
    }

    pub fn session(self) -> (r: &'static str)
        ensures
            r@ == (if self.spanish() { "Sesión"@ } else { "Session"@ }),
    {
        if self.is_spanish() {
            "Sesión"
        } else {
            "Session"
        }
    }

    pub fn protocol(self) -> (r: &'static str)
        ensures
            r@ == (if self.spanish() { "Protocolo"@ } else { "Protocol"@ }),
    {
        if self.is_spanish() {
            "Protocolo"
        } else {
            "Protocol"
        }
    }

    pub fn drive(self) -> (r: &'static str)
        ensures
            r@ == (if self.spanish() { "Unidad"@ } else { "Drive"@ }),
    {
        if self.is_spanish() {
            "Unidad"
        } else {
            "Drive"
        }
    }

    pub fn used_total(self) -> (r: &'static str)
        ensures
            r@ == (if self.spanish() { "Usado / total"@ } else { "Used / total"@ }),
    {
        if self.is_spanish() {
            "Usado / total"
        } else {
            "Used / total"
        }
    }

    pub fn available(self) -> (r: &'static str)
        ensures
            r@ == (if self.spanish() { "Disponible"@ } else { "Available"@ }),
    {
        if self.is_spanish() {
            "Disponible"
        } else {
            "Available"
        }
    }

    pub fn disk(self) -> (r: &'static str)
        ensures
            r@ == (if self.spanish() { "Disco"@ } else { "Disk"@ }),
    {
        if self.is_spanish() {
            "Disco"
        } else {
            "Disk"
        }
    }

    pub fn disk_personal(self) -> (r: &'static str)
        ensures
            r@ == (if self.spanish() { "Disco personal"@ } else { "Personal disk"@ }),
    {
        if self.is_spanish() {
            "Disco personal"
        } else {
            "Personal disk"
        }
    }

    pub fn disk_system(self) -> (r: &'static str)
        ensures
            r@ == (if self.spanish() { "Disco del sistema"@ } else { "System disk"@ }),
    {
        if self.is_spanish() {
            "Disco del sistema"
        } else {
            "System disk"
        }
    }

    pub fn model_unavailable(self) -> (r: &'static str)
        ensures
            r@ == (if self.spanish() { "Modelo no disponible"@ } else { "Model unavailable"@ }),
    {
        if self.is_spanish() {
            "Modelo no disponible"
        } else {
            "Model unavailable"
        }
    }

    pub fn capacity_unavailable(self) -> (r: &'static str)
        ensures
            r@ == (if self.spanish() { "capacidad no disponible"@ } else { "capacity unavailable"@ }),
    {
        if self.is_spanish() {
            "capacidad no disponible"
        } else {
            "capacity unavailable"
        }
    }

    pub fn type_unavailable(self) -> (r: &'static str)
        ensures
            r@ == (if self.spanish() { "tipo no disponible"@ } else { "type unavailable"@ }),
    {
        if self.is_spanish() {
            "tipo no disponible"
        } else {
            "type unavailable"
        }
    }

    pub fn application_actions(self) -> (r: &'static str)
        ensures
            r@ == (if self.spanish() { " Acciones "@ } else { " Actions "@ }),
    {
        if self.is_spanish() {
            " Acciones "
        } else {
            " Actions "
        }
    }

    pub fn pin_to_desktop(self) -> (r: &'static str)
        ensures
            r@ == (if self.spanish() { "Añadir al escritorio"@ } else { "Add to desktop"@ }),
    {
        if self.is_spanish() {
            "Añadir al escritorio"
        } else {
            "Add to desktop"
        }
    }

    pub fn remove_from_desktop(self) -> (r: &'static str)
        ensures
            r@ == (if self.spanish() { "Quitar del escritorio"@ } else { "Remove from desktop"@ }),
    {
        if self.is_spanish() {
            "Quitar del escritorio"
        } else {
            "Remove from desktop"
        }
    }

    pub fn context_hint(self) -> (r: &'static str)
        ensures
            r@ == (if self.spanish() { "Enter confirma · Esc cierra"@ } else { "Enter confirms · Esc closes"@ }),
    {
        if self.is_spanish() {
            "Enter confirma · Esc cierra"
        } else {
            "Enter confirms · Esc closes"
        }
    }

    /// The lines of the help overlay.
    pub fn help(self) -> (r: [&'static str; 15])
        ensures
            r@.map_values(|line: &'static str| line@) == (if self.spanish() { seq!["Escribe             Buscar aplicaciones (fuzzy)"@, "↑ ↓ ← →             Mover la selección"@, "Enter / doble clic  Abrir aplicación"@, "Tab / Shift+Tab     Cambiar Escritorio / Recientes"@, "PgUp / PgDown       Avanzar por páginas"@, "Home / End          Primera / última aplicación"@, "Rueda / PgUp / PgDn Desplazar la vista"@, "F2 / F3 / F4        Expandir sistema / entorno / PC"@, "Ctrl+↑ / Ctrl+↓     Desplazar la vista"@, "INSTALADOR / GESTOR   Ejecutar herramientas Lapi"@, "F5                  Volver a leer aplicaciones"@, "Ctrl+L / Ctrl+U     Limpiar búsqueda"@, "Esc                 Limpiar búsqueda; después salir"@, "Ctrl+C              Salir"@, "F1 / Esc / Enter    Cerrar esta ayuda"@] } else { seq!["Type                Search applications (fuzzy)"@, "↑ ↓ ← →             Move selection"@, "Enter / double click Open application"@, "Tab / Shift+Tab     Switch Desktop / Recent"@, "PgUp / PgDown       Move through pages"@, "Home / End          First / last application"@, "Wheel / PgUp / PgDn Scroll the view"@, "F2 / F3 / F4        Expand system / desktop / PC"@, "Ctrl+↑ / Ctrl+↓     Scroll the view"@, "INSTALLER / MANAGER Run Lapi tools"@, "F5                  Reload applications"@, "Ctrl+L / Ctrl+U     Clear search"@, "Esc                 Clear search; then quit"@, "Ctrl+C              Quit"@, "F1 / Esc / Enter    Close this help"@] }),
    {
        let r = if self.is_spanish() {
            ["Escribe             Buscar aplicaciones (fuzzy)", "↑ ↓ ← →             Mover la selección", "Enter / doble clic  Abrir aplicación", "Tab / Shift+Tab     Cambiar Escritorio / Recientes", "PgUp / PgDown       Avanzar por páginas", "Home / End          Primera / última aplicación", "Rueda / PgUp / PgDn Desplazar la vista", "F2 / F3 / F4        Expandir sistema / entorno / PC", "Ctrl+↑ / Ctrl+↓     Desplazar la vista", "INSTALADOR / GESTOR   Ejecutar herramientas Lapi", "F5                  Volver a leer aplicaciones", "Ctrl+L / Ctrl+U     Limpiar búsqueda", "Esc                 Limpiar búsqueda; después salir", "Ctrl+C              Salir", "F1 / Esc / Enter    Cerrar esta ayuda"]
        } else {
            ["Type                Search applications (fuzzy)", "↑ ↓ ← →             Move selection", "Enter / double click Open application", "Tab / Shift+Tab     Switch Desktop / Recent", "PgUp / PgDown       Move through pages", "Home / End          First / last application", "Wheel / PgUp / PgDn Scroll the view", "F2 / F3 / F4        Expand system / desktop / PC", "Ctrl+↑ / Ctrl+↓     Scroll the view", "INSTALLER / MANAGER Run Lapi tools", "F5                  Reload applications", "Ctrl+L / Ctrl+U     Clear search", "Esc                 Clear search; then quit", "Ctrl+C              Quit", "F1 / Esc / Enter    Close this help"]
        };
        assert(r@.map_values(|line: &'static str| line@) =~= (if self.spanish() { seq!["Escribe             Buscar aplicaciones (fuzzy)"@, "↑ ↓ ← →             Mover la selección"@, "Enter / doble clic  Abrir aplicación"@, "Tab / Shift+Tab     Cambiar Escritorio / Recientes"@, "PgUp / PgDown       Avanzar por páginas"@, "Home / End          Primera / última aplicación"@, "Rueda / PgUp / PgDn Desplazar la vista"@, "F2 / F3 / F4        Expandir sistema / entorno / PC"@, "Ctrl+↑ / Ctrl+↓     Desplazar la vista"@, "INSTALADOR / GESTOR   Ejecutar herramientas Lapi"@, "F5                  Volver a leer aplicaciones"@, "Ctrl+L / Ctrl+U     Limpiar búsqueda"@, "Esc                 Limpiar búsqueda; después salir"@, "Ctrl+C              Salir"@, "F1 / Esc / Enter    Cerrar esta ayuda"@] } else { seq!["Type                Search applications (fuzzy)"@, "↑ ↓ ← →             Move selection"@, "Enter / double click Open application"@, "Tab / Shift+Tab     Switch Desktop / Recent"@, "PgUp / PgDown       Move through pages"@, "Home / End          First / last application"@, "Wheel / PgUp / PgDn Scroll the view"@, "F2 / F3 / F4        Expand system / desktop / PC"@, "Ctrl+↑ / Ctrl+↓     Scroll the view"@, "INSTALLER / MANAGER Run Lapi tools"@, "F5                  Reload applications"@, "Ctrl+L / Ctrl+U     Clear search"@, "Esc                 Clear search; then quit"@, "Ctrl+C              Quit"@, "F1 / Esc / Enter    Close this help"@] }));
        r
    }
}

/// The locale names that decide the language of `Language::Auto`: the
/// pieces of `LANGUAGE` between colons (one empty piece when it is unset),
/// then the values of `LC_ALL`, `LC_MESSAGES` and `LANG` that are set.
pub open spec fn environment_names(
    language: Option<Seq<char>>,
    lc_all: Option<Seq<char>>,
    lc_messages: Option<Seq<char>>,
    lang: Option<Seq<char>>,
) -> Seq<Seq<char>> {
    let set = |v: Option<Seq<char>>| match v {
        Some(x) => seq![x],
        None => Seq::<Seq<char>>::empty(),
    };
    crate::text::split_spec(match language {
        Some(l) => l,
        None => Seq::empty(),
    }, ':') + set(lc_all) + set(lc_messages) + set(lang)
}

fn push_set(out: &mut Vec<String>, value: &Option<String>)
    ensures
        final(out)@.map_values(|s: String| s@) == old(out)@.map_values(|s: String| s@) + match value {
            Some(x) => seq![x@],
            None => Seq::<Seq<char>>::empty(),
        },
{
    match value {
        Some(v) => {
            let ghost before = out@.map_values(|s: String| s@);
            out.push(v.clone());
            assert(out@.map_values(|s: String| s@) =~= before + seq![v@]);
        },
        None => {
            assert(out@.map_values(|s: String| s@) =~= out@.map_values(|s: String| s@) + Seq::<Seq<char>>::empty());
        },
    }
}

/// The locale names of the environment, from the values of `LANGUAGE`,
/// `LC_ALL`, `LC_MESSAGES` and `LANG` where they are set.
pub fn environment_locales(
    language: &Option<String>,
    lc_all: &Option<String>,
    lc_messages: &Option<String>,
    lang: &Option<String>,
) -> (r: Vec<String>)
    ensures
        r@.map_values(|s: String| s@) == environment_names(
            match language { Some(v) => Some(v@), None => None },
            match lc_all { Some(v) => Some(v@), None => None },
            match lc_messages { Some(v) => Some(v@), None => None },
            match lang { Some(v) => Some(v@), None => None },
        ),
{
    let text = match language {
        Some(v) => crate::text::chars_of(v.as_str()),
        None => Vec::new(),
    };
    let pieces = crate::text::split_chars(&text, ':');
    let ghost pv = pieces@.map_values(|x: Vec<char>| x@);
    let mut out: Vec<String> = Vec::new();
    let mut i: usize = 0;
    while i < pieces.len()
        invariant
            0 <= i <= pieces@.len(),
            pv == pieces@.map_values(|x: Vec<char>| x@),
            out@.map_values(|s: String| s@) == pv.take(i as int),
        decreases pieces@.len() - i,
    {
        let ghost before = out@.map_values(|s: String| s@);
        let piece = crate::text::string_of(pieces[i].as_slice());
        assert(piece@ == pv[i as int]);
        out.push(piece);
        assert(out@.map_values(|s: String| s@) =~= before.push(pv[i as int]));
        assert(pv.take(i + 1) =~= pv.take(i as int).push(pv[i as int]));
        i += 1;
    }
    assert(pv.take(i as int) =~= pv);
    proof {
        if language is None {
            assert(text@ =~= Seq::<char>::empty());
        }
    }
    push_set(&mut out, lc_all);
    push_set(&mut out, lc_messages);
    push_set(&mut out, lang);
    out
}

} // verus!
